//! Board geometry: directions, distances to the board edge, and the names
//! of squares. Squares are indexed `rank * 8 + file`, with a1 = 0 and h8 = 63.

use vstd::prelude::*;

use crate::pieces::Player;

verus! {

/// One of the eight ray directions on the board.
#[derive(Clone, Copy, Debug, PartialEq, Eq, Hash, Structural)]
pub enum Direction {
    North,
    South,
    West,
    East,
    NorthWest,
    SouthEast,
    NorthEast,
    SouthWest,
}

/// The rank (0 through 7) of a square index.
pub open spec fn rank_of(idx: int) -> int {
    idx / 8
}

/// The file (0 through 7) of a square index.
pub open spec fn file_of(idx: int) -> int {
    idx % 8
}

pub open spec fn on_board(idx: int) -> bool {
    0 <= idx < 64
}

impl Direction {
    /// The index offset of one step in this direction.
    pub open spec fn offset_spec(self) -> int {
        match self {
            Direction::North => 8,
            Direction::South => -8,
            Direction::West => -1,
            Direction::East => 1,
            Direction::NorthWest => 7,
            Direction::SouthEast => -7,
            Direction::NorthEast => 9,
            Direction::SouthWest => -9,
        }
    }

    /// How one step in this direction changes the file.
    pub open spec fn dfile(self) -> int {
        match self {
            Direction::North => 0,
            Direction::South => 0,
            Direction::West => -1,
            Direction::East => 1,
            Direction::NorthWest => -1,
            Direction::SouthEast => 1,
            Direction::NorthEast => 1,
            Direction::SouthWest => -1,
        }
    }

    /// How one step in this direction changes the rank.
    pub open spec fn drank(self) -> int {
        match self {
            Direction::North => 1,
            Direction::South => -1,
            Direction::West => 0,
            Direction::East => 0,
            Direction::NorthWest => 1,
            Direction::SouthEast => -1,
            Direction::NorthEast => 1,
            Direction::SouthWest => -1,
        }
    }

    /// The index offset of one step in this direction.
    pub fn offset(&self) -> (r: isize)
        ensures
            r as int == self.offset_spec(),
            self.offset_spec() == self.dfile() + 8 * self.drank(),
    {
        match *self {
            Direction::North => 8,
            Direction::South => -8,
            Direction::West => -1,
            Direction::East => 1,
            Direction::NorthWest => 7,
            Direction::SouthEast => -7,
            Direction::NorthEast => 9,
            Direction::SouthWest => -9,
        }
    }
}

impl Player {
    /// The direction this player's pawns advance in.
    pub fn forward_dir(&self) -> (r: Direction)
        ensures
            r == (match *self {
                Player::White => Direction::North,
                Player::Black => Direction::South,
            }),
    {
        match *self {
            Player::White => Direction::North,
            Player::Black => Direction::South,
        }
    }

    /// The signed forward step of this player's pawns, in ranks: +1 for
    /// White, -1 for Black.
    pub fn forward_value(&self) -> (r: isize)
        ensures
            r as int == (match *self {
                Player::White => 1int,
                Player::Black => -1int,
            }),
    {
        match *self {
            Player::White => 1,
            Player::Black => -1,
        }
    }
}

/// How many steps can be taken from `idx` in direction `d` before leaving
/// the board: the distance to the edge along the cardinal components,
/// the minimum of the two for diagonals.
pub open spec fn ste(idx: int, d: Direction) -> int {
    let n = 7 - rank_of(idx);
    let s = rank_of(idx);
    let w = file_of(idx);
    let e = 7 - file_of(idx);
    match d {
        Direction::North => n,
        Direction::South => s,
        Direction::West => w,
        Direction::East => e,
        Direction::NorthWest => if n <= w { n } else { w },
        Direction::SouthEast => if s <= e { s } else { e },
        Direction::NorthEast => if n <= e { n } else { e },
        Direction::SouthWest => if s <= w { s } else { w },
    }
}

/// The number of squares between `start` and the board edge in direction
/// `dir`, from rank/file arithmetic.
pub fn squares_to_edge(start: usize, dir: Direction) -> (r: usize)
    requires
        start < 64,
    ensures
        r as int == ste(start as int, dir),
        r <= 7,
{
    let rank = start / 8;
    let file = start % 8;
    let n_north = 7 - rank;
    let n_south = rank;
    let n_west = file;
    let n_east = 7 - file;
    match dir {
        Direction::North => n_north,
        Direction::South => n_south,
        Direction::West => n_west,
        Direction::East => n_east,
        Direction::NorthWest => if n_north <= n_west { n_north } else { n_west },
        Direction::SouthEast => if n_south <= n_east { n_south } else { n_east },
        Direction::NorthEast => if n_north <= n_east { n_north } else { n_east },
        Direction::SouthWest => if n_south <= n_west { n_south } else { n_west },
    }
}

/// A square index decomposes uniquely into rank and file.
pub proof fn lemma_rank_file(t: int, r: int, f: int)
    requires
        t == 8 * r + f,
        0 <= f < 8,
        0 <= r,
    ensures
        rank_of(t) == r,
        file_of(t) == f,
{
    assert(t / 8 == r && t % 8 == f) by (nonlinear_arith)
        requires
            t == 8 * r + f,
            0 <= f < 8,
            0 <= r,
    ;
}

/// Stepping `k` times in direction `d` from a square, with `k` within the
/// edge distance, lands on the board, moving `k` files and ranks in the
/// direction's components; no step wraps around an edge.
pub proof fn lemma_ray_step(start: int, d: Direction, k: int)
    requires
        on_board(start),
        0 <= k <= ste(start, d),
    ensures
        on_board(start + k * d.offset_spec()),
        rank_of(start + k * d.offset_spec()) == rank_of(start) + k * d.drank(),
        file_of(start + k * d.offset_spec()) == file_of(start) + k * d.dfile(),
        ste(start + k * d.offset_spec(), d) == ste(start, d) - k,
{
    let r0 = rank_of(start);
    let f0 = file_of(start);
    assert(start == 8 * r0 + f0 && 0 <= f0 < 8 && 0 <= r0 < 8) by (nonlinear_arith)
        requires
            on_board(start),
            r0 == start / 8,
            f0 == start % 8,
    ;
    let t = start + k * d.offset_spec();
    let r1 = r0 + k * d.drank();
    let f1 = f0 + k * d.dfile();
    assert(d.offset_spec() == d.dfile() + 8 * d.drank());
    assert(k * (d.dfile() + 8 * d.drank()) == k * d.dfile() + 8 * (k * d.drank()))
        by (nonlinear_arith);
    assert(t == 8 * r1 + f1);
    // each direction bounds its own components
    assert(0 <= r1 < 8 && 0 <= f1 < 8) by {
        match d {
            Direction::North => { assert(k * 1 == k && k * 0 == 0) by (nonlinear_arith); }
            Direction::South => { assert(k * -1 == -k && k * 0 == 0) by (nonlinear_arith); }
            Direction::West => { assert(k * -1 == -k && k * 0 == 0) by (nonlinear_arith); }
            Direction::East => { assert(k * 1 == k && k * 0 == 0) by (nonlinear_arith); }
            Direction::NorthWest => { assert(k * 1 == k && k * -1 == -k) by (nonlinear_arith); }
            Direction::SouthEast => { assert(k * 1 == k && k * -1 == -k) by (nonlinear_arith); }
            Direction::NorthEast => { assert(k * 1 == k && k * -1 == -k) by (nonlinear_arith); }
            Direction::SouthWest => { assert(k * 1 == k && k * -1 == -k) by (nonlinear_arith); }
        }
    }
    lemma_rank_file(t, r1, f1);
    assert(ste(t, d) == ste(start, d) - k) by {
        assert(k * 1 == k && k * -1 == -k && k * 0 == 0) by (nonlinear_arith);
    }
}

/// The two squares a castling rook moves between: its home square and its
/// post-castle square, for the given player and wing (`is_east` names the
/// king-side wing).
pub fn get_rook_castle_pos(player: Player, is_east: bool) -> (r: (usize, usize))
    ensures
        r == spec_rook_castle_pos(player, is_east),
{
    match (player, is_east) {
        (Player::White, false) => (0, 3),
        (Player::White, true) => (7, 5),
        (Player::Black, false) => (56, 59),
        (Player::Black, true) => (63, 61),
    }
}

pub open spec fn spec_rook_castle_pos(player: Player, is_east: bool) -> (usize, usize) {
    match (player, is_east) {
        (Player::White, false) => (0usize, 3usize),
        (Player::White, true) => (7usize, 5usize),
        (Player::Black, false) => (56usize, 59usize),
        (Player::Black, true) => (63usize, 61usize),
    }
}

/// The file encoded by the first character of a square name, or -1.
pub open spec fn spec_file_char(c: char) -> int {
    match c {
        'a' => 0,
        'b' => 1,
        'c' => 2,
        'd' => 3,
        'e' => 4,
        'f' => 5,
        'g' => 6,
        'h' => 7,
        _ => -1,
    }
}

/// The rank encoded by the second character of a square name, or -1.
pub open spec fn spec_rank_char(c: char) -> int {
    match c {
        '1' => 0,
        '2' => 1,
        '3' => 2,
        '4' => 3,
        '5' => 4,
        '6' => 5,
        '7' => 6,
        '8' => 7,
        _ => -1,
    }
}

/// The square index named by the first two characters of `s`: a file letter
/// followed by a rank digit. Characters past the second are ignored.
pub open spec fn spec_square_name_idx(s: Seq<char>) -> Option<usize> {
    if s.len() < 2 {
        None
    } else {
        let f = spec_file_char(s[0]);
        let r = spec_rank_char(s[1]);
        if f >= 0 && r >= 0 {
            Some((r * 8 + f) as usize)
        } else {
            None
        }
    }
}

/// Parses a square name such as "e4" into a square index. The name's first
/// character must be a file letter 'a' through 'h' and its second a rank
/// digit '1' through '8'; any further characters are ignored.
pub fn square_name_to_idx(pos: &str) -> (r: Option<usize>)
    ensures
        r == spec_square_name_idx(pos@),
        r matches Some(i) ==> i < 64,
{
    if pos.unicode_len() < 2 {
        return None;
    }
    let c0 = pos.get_char(0);
    let file: usize = match c0 {
        'a' => 0,
        'b' => 1,
        'c' => 2,
        'd' => 3,
        'e' => 4,
        'f' => 5,
        'g' => 6,
        'h' => 7,
        _ => { return None; },
    };
    let c1 = pos.get_char(1);
    let rank: usize = match c1 {
        '1' => 0,
        '2' => 1,
        '3' => 2,
        '4' => 3,
        '5' => 4,
        '6' => 5,
        '7' => 6,
        '8' => 7,
        _ => { return None; },
    };
    Some(rank * 8 + file)
}

/// The two-character name of a square index: file letter, then rank digit.
pub open spec fn spec_square_name(idx: int) -> Seq<char> {
    let fc: char = if file_of(idx) == 0 {
        'a'
    } else if file_of(idx) == 1 {
        'b'
    } else if file_of(idx) == 2 {
        'c'
    } else if file_of(idx) == 3 {
        'd'
    } else if file_of(idx) == 4 {
        'e'
    } else if file_of(idx) == 5 {
        'f'
    } else if file_of(idx) == 6 {
        'g'
    } else {
        'h'
    };
    let rc: char = if rank_of(idx) == 0 {
        '1'
    } else if rank_of(idx) == 1 {
        '2'
    } else if rank_of(idx) == 2 {
        '3'
    } else if rank_of(idx) == 3 {
        '4'
    } else if rank_of(idx) == 4 {
        '5'
    } else if rank_of(idx) == 5 {
        '6'
    } else if rank_of(idx) == 6 {
        '7'
    } else {
        '8'
    };
    seq![fc, rc]
}

/// Writes a square index as its algebraic name, for indexes on the board.
pub fn idx_to_square_name(idx: usize) -> (r: Option<String>)
    ensures
        idx < 64 ==> (r matches Some(s) && s@ == spec_square_name(idx as int)),
        idx >= 64 ==> r is None,
{
    if idx >= 64 {
        return None;
    }
    let file = idx % 8;
    let rank = idx / 8;
    let fs: &str = match file {
        0 => "a",
        1 => "b",
        2 => "c",
        3 => "d",
        4 => "e",
        5 => "f",
        6 => "g",
        _ => "h",
    };
    let rs: &str = match rank {
        0 => "1",
        1 => "2",
        2 => "3",
        3 => "4",
        4 => "5",
        5 => "6",
        6 => "7",
        _ => "8",
    };
    proof {
        reveal_strlit("a");
        reveal_strlit("b");
        reveal_strlit("c");
        reveal_strlit("d");
        reveal_strlit("e");
        reveal_strlit("f");
        reveal_strlit("g");
        reveal_strlit("h");
        reveal_strlit("1");
        reveal_strlit("2");
        reveal_strlit("3");
        reveal_strlit("4");
        reveal_strlit("5");
        reveal_strlit("6");
        reveal_strlit("7");
        reveal_strlit("8");
    }
    let mut out = String::from_str(fs);
    out.append(rs);
    proof {
        assert(out@ =~= spec_square_name(idx as int));
    }
    Some(out)
}

/// Naming a square on the board and parsing the name returns the square.
pub proof fn lemma_square_name_round_trip(idx: int)
    requires
        on_board(idx),
    ensures
        spec_square_name_idx(spec_square_name(idx)) == Some(idx as usize),
{
}

} // verus!

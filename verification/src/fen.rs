//! The FEN codec: reading a position from, and writing it to, the
//! standard six-field textual notation — placement, active color,
//! castling rights, en-passant target, halfmove clock, fullmove number.

use vstd::prelude::*;

use crate::board::Board;
use crate::board::BoardState;
use crate::geometry::spec_square_name;
use crate::geometry::spec_square_name_idx;
use crate::geometry::idx_to_square_name;
use crate::geometry::square_name_to_idx;
use crate::pieces::CastleRights;
use crate::pieces::Piece;
use crate::pieces::Player;
use crate::pieces::BISHOP;
use crate::pieces::BLACK;
use crate::pieces::KING;
use crate::pieces::KNIGHT;
use crate::pieces::PAWN;
use crate::pieces::QUEEN;
use crate::pieces::ROOK;
use crate::pieces::WHITE;

verus! {

broadcast use {
    vstd::array::group_array_axioms,
    vstd::seq_lib::group_seq_lib_default,
};

/// The six fields of a FEN string.
#[derive(Clone, Copy, Debug, PartialEq, Eq, PartialOrd, Ord, Structural)]
pub enum FenPart {
    Board,
    ActiveColor,
    CastleRights,
    EnPassant,
    HalfMove,
    FullMove,
}

/// Why a FEN string was rejected.
#[derive(Clone, Copy, Debug, PartialEq, Eq)]
pub enum FenParseErr {
    /// The string ended before this field appeared.
    MissingComponent { part: FenPart },
    /// A field held an unusable character or overran the board.
    InvalidData { part: FenPart, char_idx: usize, err_msg: &'static str },
    /// More than six space-separated fields appeared.
    TooManyComponents,
}

/// The abstract shape of a FEN rejection: which field, and where. The
/// human-readable message is not part of the contract.
pub ghost enum FenErr {
    Missing { part: FenPart },
    Invalid { part: FenPart, char_idx: int },
    TooMany,
}

/// Whether the concrete error `e` matches the abstract error `g`.
pub open spec fn err_matches(e: FenParseErr, g: FenErr) -> bool {
    match (e, g) {
        (FenParseErr::MissingComponent { part }, FenErr::Missing { part: p2 }) => part == p2,
        (
            FenParseErr::InvalidData { part, char_idx, err_msg },
            FenErr::Invalid { part: p2, char_idx: i2 },
        ) => part == p2 && char_idx as int == i2,
        (FenParseErr::TooManyComponents, FenErr::TooMany) => true,
        _ => false,
    }
}

impl FenParseErr {
    /// The error for a field the string ran out before.
    pub fn missing(part: FenPart) -> (r: FenParseErr)
        ensures
            r matches FenParseErr::MissingComponent { part: p } && p == part,
    {
        FenParseErr::MissingComponent { part }
    }

    /// The error for a field with unusable data at `char_idx`.
    pub fn invalid(part: FenPart, char_idx: usize, err_msg: &'static str) -> (r: FenParseErr)
        ensures
            r matches FenParseErr::InvalidData { part: p, char_idx: i, err_msg: _m } && p == part
                && i == char_idx,
    {
        FenParseErr::InvalidData { part, char_idx, err_msg }
    }
}

/// The decimal digit character for values 0 through 9.
pub open spec fn spec_digit_char(d: int) -> char {
    if d == 0 {
        '0'
    } else if d == 1 {
        '1'
    } else if d == 2 {
        '2'
    } else if d == 3 {
        '3'
    } else if d == 4 {
        '4'
    } else if d == 5 {
        '5'
    } else if d == 6 {
        '6'
    } else if d == 7 {
        '7'
    } else if d == 8 {
        '8'
    } else {
        '9'
    }
}

/// The value of a decimal digit character, or -1.
pub open spec fn spec_digit_val(c: char) -> int {
    if c == '0' {
        0
    } else if c == '1' {
        1
    } else if c == '2' {
        2
    } else if c == '3' {
        3
    } else if c == '4' {
        4
    } else if c == '5' {
        5
    } else if c == '6' {
        6
    } else if c == '7' {
        7
    } else if c == '8' {
        8
    } else if c == '9' {
        9
    } else {
        -1
    }
}

/// The FEN letter of a piece: uppercase for White, lowercase for Black.
pub open spec fn spec_piece_char(p: Piece) -> char {
    let k = p.kind();
    if p.color_bits() == WHITE {
        if k == KING {
            'K'
        } else if k == PAWN {
            'P'
        } else if k == KNIGHT {
            'N'
        } else if k == BISHOP {
            'B'
        } else if k == ROOK {
            'R'
        } else {
            'Q'
        }
    } else {
        if k == KING {
            'k'
        } else if k == PAWN {
            'p'
        } else if k == KNIGHT {
            'n'
        } else if k == BISHOP {
            'b'
        } else if k == ROOK {
            'r'
        } else {
            'q'
        }
    }
}

/// The piece a FEN letter names: uppercase for White, lowercase for Black.
pub open spec fn spec_piece_from_fen(c: char) -> Option<Piece> {
    if c == 'K' {
        Some(Piece { code: (WHITE + KING) as u8 })
    } else if c == 'P' {
        Some(Piece { code: (WHITE + PAWN) as u8 })
    } else if c == 'N' {
        Some(Piece { code: (WHITE + KNIGHT) as u8 })
    } else if c == 'B' {
        Some(Piece { code: (WHITE + BISHOP) as u8 })
    } else if c == 'R' {
        Some(Piece { code: (WHITE + ROOK) as u8 })
    } else if c == 'Q' {
        Some(Piece { code: (WHITE + QUEEN) as u8 })
    } else if c == 'k' {
        Some(Piece { code: (BLACK + KING) as u8 })
    } else if c == 'p' {
        Some(Piece { code: (BLACK + PAWN) as u8 })
    } else if c == 'n' {
        Some(Piece { code: (BLACK + KNIGHT) as u8 })
    } else if c == 'b' {
        Some(Piece { code: (BLACK + BISHOP) as u8 })
    } else if c == 'r' {
        Some(Piece { code: (BLACK + ROOK) as u8 })
    } else if c == 'q' {
        Some(Piece { code: (BLACK + QUEEN) as u8 })
    } else {
        None
    }
}

/// Maps a FEN letter to its piece, case naming the color.
pub fn piece_from_fen(c: char) -> (r: Option<Piece>)
    ensures
        r == spec_piece_from_fen(c),
{
    match c {
        'K' => Some(Piece::combine(KING, Player::White)),
        'P' => Some(Piece::combine(PAWN, Player::White)),
        'N' => Some(Piece::combine(KNIGHT, Player::White)),
        'B' => Some(Piece::combine(BISHOP, Player::White)),
        'R' => Some(Piece::combine(ROOK, Player::White)),
        'Q' => Some(Piece::combine(QUEEN, Player::White)),
        'k' => Some(Piece::combine(KING, Player::Black)),
        'p' => Some(Piece::combine(PAWN, Player::Black)),
        'n' => Some(Piece::combine(KNIGHT, Player::Black)),
        'b' => Some(Piece::combine(BISHOP, Player::Black)),
        'r' => Some(Piece::combine(ROOK, Player::Black)),
        'q' => Some(Piece::combine(QUEEN, Player::Black)),
        _ => None,
    }
}

/// The run-length-encoded text of rank `r` from file `f` on, with `empt`
/// not-yet-written empty squares pending.
pub open spec fn spec_rank_fen(s: BoardState, r: int, f: int, empt: int) -> Seq<char>
    decreases 8 - f,
{
    if f >= 8 {
        if empt > 0 {
            seq![spec_digit_char(empt)]
        } else {
            Seq::empty()
        }
    } else {
        let p = s.squares[r * 8 + f];
        if p.code == 0 {
            spec_rank_fen(s, r, f + 1, empt + 1)
        } else {
            (if empt > 0 {
                seq![spec_digit_char(empt)]
            } else {
                Seq::empty()
            }) + seq![spec_piece_char(p)] + spec_rank_fen(s, r, f + 1, 0)
        }
    }
}

/// The placement text of ranks `r` down to 0, separated by '/'.
pub open spec fn spec_placement_fen(s: BoardState, r: int) -> Seq<char>
    decreases r,
{
    if r <= 0 {
        spec_rank_fen(s, 0, 0, 0)
    } else {
        spec_rank_fen(s, r, 0, 0) + seq!['/'] + spec_placement_fen(s, r - 1)
    }
}

/// The castling-rights field: 'K', 'Q', 'k', 'q' for the held rights in
/// that order, or '-' when none is held.
pub open spec fn spec_castle_fen(cr: CastleRights) -> Seq<char> {
    let out = (if cr.white_king {
        seq!['K']
    } else {
        Seq::empty()
    }) + (if cr.white_queen {
        seq!['Q']
    } else {
        Seq::empty()
    }) + (if cr.black_king {
        seq!['k']
    } else {
        Seq::empty()
    }) + (if cr.black_queen {
        seq!['q']
    } else {
        Seq::empty()
    });
    if out.len() == 0 {
        seq!['-']
    } else {
        out
    }
}

/// The en-passant field: the target's square name, or '-' when unset or
/// off the board.
pub open spec fn spec_ep_fen(ep: Option<int>) -> Seq<char> {
    match ep {
        Some(t) => if 0 <= t < 64 {
            spec_square_name(t)
        } else {
            seq!['-']
        },
        None => seq!['-'],
    }
}

/// The decimal text of a nonnegative number.
pub open spec fn spec_dec(n: int) -> Seq<char>
    decreases n,
{
    if n < 10 {
        seq![spec_digit_char(n)]
    } else {
        spec_dec(n / 10) + seq![spec_digit_char(n % 10)]
    }
}

/// The whole six-field FEN text of a position.
pub open spec fn spec_fen(s: BoardState) -> Seq<char> {
    spec_placement_fen(s, 7) + seq![' '] + (if s.active_color is White {
        seq!['w']
    } else {
        seq!['b']
    }) + seq![' '] + spec_castle_fen(s.castle_rights) + seq![' '] + spec_ep_fen(s.en_passant)
        + seq![' '] + spec_dec(s.halfmove as int) + seq![' '] + spec_dec(s.fullmove as int)
}

/// The fields of a FEN string from position `i` on, split on every space;
/// `cur` is the partial field read so far.
pub open spec fn spec_fields_acc(s: Seq<char>, i: int, cur: Seq<char>) -> Seq<Seq<char>>
    decreases s.len() - i,
{
    if i >= s.len() {
        seq![cur]
    } else if s[i] == ' ' {
        seq![cur] + spec_fields_acc(s, i + 1, Seq::empty())
    } else {
        spec_fields_acc(s, i + 1, cur.push(s[i]))
    }
}

/// The space-separated fields of a FEN string; consecutive spaces yield
/// empty fields.
pub open spec fn spec_fields(s: Seq<char>) -> Seq<Seq<char>> {
    spec_fields_acc(s, 0, Seq::empty())
}

/// The field that is the first to be missing when only `i` fields appear.
pub open spec fn spec_part_of(i: int) -> FenPart {
    if i <= 0 {
        FenPart::Board
    } else if i == 1 {
        FenPart::ActiveColor
    } else if i == 2 {
        FenPart::CastleRights
    } else if i == 3 {
        FenPart::EnPassant
    } else if i == 4 {
        FenPart::HalfMove
    } else {
        FenPart::FullMove
    }
}

/// `sq` with `num` empty squares written from `base` on.
pub open spec fn write_empties(sq: Seq<Piece>, base: int, num: int) -> Seq<Piece> {
    Seq::new(sq.len(), |j: int| if base <= j < base + num {
        Piece { code: 0 }
    } else {
        sq[j]
    })
}

/// One step at a time through the placement field: '/' drops a rank and
/// resets the file, a digit writes that many empty squares, a letter
/// writes its piece; anything else, or any write past the board, stops
/// with the offending character's index.
pub open spec fn spec_parse_board_at(
    t: Seq<char>,
    i: int,
    sq: Seq<Piece>,
    rank: int,
    file: int,
) -> Result<Seq<Piece>, int>
    decreases t.len() - i,
{
    if i >= t.len() {
        Ok(sq)
    } else {
        let c = t[i];
        if c == '/' {
            if rank == 0 {
                Err(i)
            } else {
                spec_parse_board_at(t, i + 1, sq, rank - 1, 0)
            }
        } else if spec_digit_val(c) >= 0 {
            let num = spec_digit_val(c);
            if rank * 8 + file + num > 64 {
                Err(i)
            } else {
                spec_parse_board_at(
                    t,
                    i + 1,
                    write_empties(sq, rank * 8 + file, num),
                    rank,
                    file + num,
                )
            }
        } else {
            match spec_piece_from_fen(c) {
                Some(p) => if rank * 8 + file < 64 {
                    spec_parse_board_at(t, i + 1, sq.update(rank * 8 + file, p), rank, file + 1)
                } else {
                    Err(i)
                },
                None => Err(i),
            }
        }
    }
}

/// The placement field parsed onto an empty board, rank 7 first.
pub open spec fn spec_parse_placement(t: Seq<char>) -> Result<Seq<Piece>, int> {
    spec_parse_board_at(t, 0, Seq::new(64, |j: int| Piece { code: 0 }), 7, 0)
}

/// The active-color field: exactly "w" or "b".
pub open spec fn spec_parse_color(t: Seq<char>) -> Result<Player, ()> {
    if t.len() == 1 && t[0] == 'w' {
        Ok(Player::White)
    } else if t.len() == 1 && t[0] == 'b' {
        Ok(Player::Black)
    } else {
        Err(())
    }
}

/// The castling field char by char: each of 'K', 'Q', 'k', 'q' grants its
/// right; anything else stops with its index.
pub open spec fn spec_parse_castle_at(t: Seq<char>, i: int, cr: CastleRights) -> Result<
    CastleRights,
    int,
>
    decreases t.len() - i,
{
    if i >= t.len() {
        Ok(cr)
    } else if t[i] == 'K' {
        spec_parse_castle_at(t, i + 1, CastleRights { white_king: true, ..cr })
    } else if t[i] == 'Q' {
        spec_parse_castle_at(t, i + 1, CastleRights { white_queen: true, ..cr })
    } else if t[i] == 'k' {
        spec_parse_castle_at(t, i + 1, CastleRights { black_king: true, ..cr })
    } else if t[i] == 'q' {
        spec_parse_castle_at(t, i + 1, CastleRights { black_queen: true, ..cr })
    } else {
        Err(i)
    }
}

/// The castling field: "-" for no rights, else any combination of 'K',
/// 'Q', 'k', 'q'.
pub open spec fn spec_parse_castle(t: Seq<char>) -> Result<CastleRights, int> {
    if t.len() == 1 && t[0] == '-' {
        Ok(CastleRights { white_king: false, white_queen: false, black_king: false, black_queen: false })
    } else {
        spec_parse_castle_at(
            t,
            0,
            CastleRights { white_king: false, white_queen: false, black_king: false, black_queen: false },
        )
    }
}

/// The en-passant field: "-" or a square name.
pub open spec fn spec_parse_ep(t: Seq<char>) -> Result<Option<int>, ()> {
    if t.len() == 1 && t[0] == '-' {
        Ok(None)
    } else {
        match spec_square_name_idx(t) {
            Some(i) => Ok(Some(i as int)),
            None => Err(()),
        }
    }
}

/// The digits of a counter field, left to right, rejecting a non-digit or
/// a value beyond the 32-bit range.
pub open spec fn spec_parse_u32_at(t: Seq<char>, i: int, acc: int) -> Result<int, ()>
    decreases t.len() - i,
{
    if i >= t.len() {
        Ok(acc)
    } else {
        let d = spec_digit_val(t[i]);
        if d < 0 {
            Err(())
        } else {
            let acc2 = acc * 10 + d;
            if acc2 > u32::MAX {
                Err(())
            } else {
                spec_parse_u32_at(t, i + 1, acc2)
            }
        }
    }
}

/// A counter field: an optional '+' sign, then one or more digits.
pub open spec fn spec_parse_u32(t: Seq<char>) -> Result<int, ()> {
    if t.len() == 0 {
        Err(())
    } else {
        let st: int = if t[0] == '+' {
            1
        } else {
            0
        };
        if t.len() <= st {
            Err(())
        } else {
            spec_parse_u32_at(t, st, 0)
        }
    }
}

/// The whole FEN text parsed into a position: six fields, each parsed in
/// order, the first failure naming its field.
pub open spec fn spec_load_fen(t: Seq<char>) -> Result<BoardState, FenErr> {
    let fields = spec_fields(t);
    if fields.len() < 6 {
        Err(FenErr::Missing { part: spec_part_of(fields.len() as int) })
    } else if fields.len() > 6 {
        Err(FenErr::TooMany)
    } else {
        match spec_parse_placement(fields[0]) {
            Err(ci) => Err(FenErr::Invalid { part: FenPart::Board, char_idx: ci }),
            Ok(sq) => match spec_parse_color(fields[1]) {
                Err(_) => Err(FenErr::Invalid { part: FenPart::ActiveColor, char_idx: 0 }),
                Ok(ac) => match spec_parse_castle(fields[2]) {
                    Err(ci) => Err(FenErr::Invalid { part: FenPart::CastleRights, char_idx: ci }),
                    Ok(cr) => match spec_parse_ep(fields[3]) {
                        Err(_) => Err(FenErr::Invalid { part: FenPart::EnPassant, char_idx: 0 }),
                        Ok(ep) => match spec_parse_u32(fields[4]) {
                            Err(_) => Err(FenErr::Invalid { part: FenPart::HalfMove, char_idx: 0 }),
                            Ok(h) => match spec_parse_u32(fields[5]) {
                                Err(_) => Err(
                                    FenErr::Invalid { part: FenPart::FullMove, char_idx: 0 },
                                ),
                                Ok(f) => Ok(
                                    BoardState {
                                        squares: sq,
                                        castle_rights: cr,
                                        active_color: ac,
                                        en_passant: ep,
                                        halfmove: h as u32,
                                        fullmove: f as u32,
                                    },
                                ),
                            },
                        },
                    },
                },
            },
        }
    }
}

/// The placement parse with its full cursor state, for reasoning about
/// texts pieced together from parts: the final squares, rank and file.
pub open spec fn spec_parse_board_state(
    t: Seq<char>,
    i: int,
    sq: Seq<Piece>,
    rank: int,
    file: int,
) -> Result<(Seq<Piece>, int, int), int>
    decreases t.len() - i,
{
    if i >= t.len() {
        Ok((sq, rank, file))
    } else {
        let c = t[i];
        if c == '/' {
            if rank == 0 {
                Err(i)
            } else {
                spec_parse_board_state(t, i + 1, sq, rank - 1, 0)
            }
        } else if spec_digit_val(c) >= 0 {
            let num = spec_digit_val(c);
            if rank * 8 + file + num > 64 {
                Err(i)
            } else {
                spec_parse_board_state(
                    t,
                    i + 1,
                    write_empties(sq, rank * 8 + file, num),
                    rank,
                    file + num,
                )
            }
        } else {
            match spec_piece_from_fen(c) {
                Some(p) => if rank * 8 + file < 64 {
                    spec_parse_board_state(t, i + 1, sq.update(rank * 8 + file, p), rank, file + 1)
                } else {
                    Err(i)
                },
                None => Err(i),
            }
        }
    }
}

/// The plain placement parse is the state-passing parse with the final
/// cursor dropped.
proof fn lemma_parse_board_state_at(t: Seq<char>, i: int, sq: Seq<Piece>, rank: int, file: int)
    ensures
        spec_parse_board_at(t, i, sq, rank, file) == (match spec_parse_board_state(
            t,
            i,
            sq,
            rank,
            file,
        ) {
            Ok((sq2, _r, _f)) => Ok::<Seq<Piece>, int>(sq2),
            Err(e) => Err(e),
        }),
    decreases t.len() - i,
{
    if i < t.len() {
        let c = t[i];
        if c == '/' {
            if rank != 0 {
                lemma_parse_board_state_at(t, i + 1, sq, rank - 1, 0);
            }
        } else if spec_digit_val(c) >= 0 {
            if rank * 8 + file + spec_digit_val(c) <= 64 {
                lemma_parse_board_state_at(
                    t,
                    i + 1,
                    write_empties(sq, rank * 8 + file, spec_digit_val(c)),
                    rank,
                    file + spec_digit_val(c),
                );
            }
        } else {
            if spec_piece_from_fen(c) matches Some(p) && rank * 8 + file < 64 {
                lemma_parse_board_state_at(
                    t,
                    i + 1,
                    sq.update(rank * 8 + file, spec_piece_from_fen(c).unwrap()),
                    rank,
                    file + 1,
                );
            }
        }
    }
}

/// A parse that succeeds on a suffix succeeds at the same offset past a
/// prefix.
proof fn lemma_parse_board_shift(
    t1: Seq<char>,
    t2: Seq<char>,
    j: int,
    sq: Seq<Piece>,
    rank: int,
    file: int,
    st: (Seq<Piece>, int, int),
)
    requires
        0 <= j <= t2.len(),
        spec_parse_board_state(t2, j, sq, rank, file) == Ok::<(Seq<Piece>, int, int), int>(st),
    ensures
        spec_parse_board_state(t1 + t2, t1.len() + j, sq, rank, file) == Ok::<
            (Seq<Piece>, int, int),
            int,
        >(st),
    decreases t2.len() - j,
{
    if j >= t2.len() {
    } else {
        assert((t1 + t2)[t1.len() + j] == t2[j]);
        let c = t2[j];
        if c == '/' {
            lemma_parse_board_shift(t1, t2, j + 1, sq, rank - 1, 0, st);
        } else if spec_digit_val(c) >= 0 {
            lemma_parse_board_shift(
                t1,
                t2,
                j + 1,
                write_empties(sq, rank * 8 + file, spec_digit_val(c)),
                rank,
                file + spec_digit_val(c),
                st,
            );
        } else {
            lemma_parse_board_shift(
                t1,
                t2,
                j + 1,
                sq.update(rank * 8 + file, spec_piece_from_fen(c).unwrap()),
                rank,
                file + 1,
                st,
            );
        }
    }
}

/// Parsing a concatenation runs the first part to its final state, then
/// the second part from there.
proof fn lemma_parse_board_concat(
    t1: Seq<char>,
    t2: Seq<char>,
    i: int,
    sq: Seq<Piece>,
    rank: int,
    file: int,
    mid: (Seq<Piece>, int, int),
    fin: (Seq<Piece>, int, int),
)
    requires
        0 <= i <= t1.len(),
        spec_parse_board_state(t1, i, sq, rank, file) == Ok::<(Seq<Piece>, int, int), int>(mid),
        spec_parse_board_state(t2, 0, mid.0, mid.1, mid.2) == Ok::<(Seq<Piece>, int, int), int>(
            fin,
        ),
    ensures
        spec_parse_board_state(t1 + t2, i, sq, rank, file) == Ok::<(Seq<Piece>, int, int), int>(
            fin,
        ),
    decreases t1.len() - i,
{
    if i >= t1.len() {
        assert(mid == (sq, rank, file));
        lemma_parse_board_shift(t1, t2, 0, mid.0, mid.1, mid.2, fin);
    } else {
        assert((t1 + t2)[i] == t1[i]);
        let c = t1[i];
        if c == '/' {
            lemma_parse_board_concat(t1, t2, i + 1, sq, rank - 1, 0, mid, fin);
        } else if spec_digit_val(c) >= 0 {
            lemma_parse_board_concat(
                t1,
                t2,
                i + 1,
                write_empties(sq, rank * 8 + file, spec_digit_val(c)),
                rank,
                file + spec_digit_val(c),
                mid,
                fin,
            );
        } else {
            lemma_parse_board_concat(
                t1,
                t2,
                i + 1,
                sq.update(rank * 8 + file, spec_piece_from_fen(c).unwrap()),
                rank,
                file + 1,
                mid,
                fin,
            );
        }
    }
}

/// A piece letter reads back as the piece it was written from.
proof fn lemma_piece_char_round(p: Piece)
    requires
        p.wf(),
        p.code != 0,
    ensures
        spec_piece_from_fen(spec_piece_char(p)) == Some(p),
        spec_digit_val(spec_piece_char(p)) == -1,
        spec_piece_char(p) != '/',
        spec_piece_char(p) != ' ',
{
    crate::pieces::lemma_wf_decompose(p);
}

/// `sq` with the squares of rank `r` from file `lo` on replaced by the
/// position's values.
pub open spec fn row_merged(sq: Seq<Piece>, s: BoardState, r: int, lo: int) -> Seq<Piece> {
    Seq::new(sq.len(), |j: int| if r * 8 + lo <= j < r * 8 + 8 {
        s.squares[j]
    } else {
        sq[j]
    })
}

/// Parsing the printed text of one rank writes exactly that rank's
/// squares and leaves the cursor at its end.
proof fn lemma_rank_round(s: BoardState, r: int, f: int, empt: int, sq: Seq<Piece>)
    requires
        s.wf_squares(),
        0 <= r < 8,
        0 <= empt <= f <= 8,
        sq.len() == 64,
        forall|j: int| r * 8 + f - empt <= j < r * 8 + f ==> (#[trigger] s.squares[j]).code == 0,
    ensures
        spec_parse_board_state(spec_rank_fen(s, r, f, empt), 0, sq, r, f - empt) == Ok::<
            (Seq<Piece>, int, int),
            int,
        >((row_merged(sq, s, r, f - empt), r, 8)),
    decreases 8 - f,
{
    reveal_with_fuel(spec_parse_board_state, 3);
    let t = spec_rank_fen(s, r, f, empt);
    let lo = f - empt;
    if f >= 8 {
        if empt > 0 {
            assert(spec_digit_val(spec_digit_char(empt)) == empt);
            assert(t == seq![spec_digit_char(empt)]);
            assert(t[0] == spec_digit_char(empt));
            let sq2 = write_empties(sq, r * 8 + lo, empt);
            assert(spec_parse_board_state(t, 1, sq2, r, 8) == Ok::<(Seq<Piece>, int, int), int>(
                (sq2, r, 8),
            ));
            assert(sq2 =~= row_merged(sq, s, r, lo));
        } else {
            assert(t.len() == 0);
            assert(row_merged(sq, s, r, 8) =~= sq);
        }
    } else {
        let p = s.squares[r * 8 + f];
        assert(p.wf());
        if p.code == 0 {
            lemma_rank_round(s, r, f + 1, empt + 1, sq);
        } else {
            lemma_piece_char_round(p);
            let digits: Seq<char> = if empt > 0 {
                seq![spec_digit_char(empt)]
            } else {
                Seq::empty()
            };
            let pc = seq![spec_piece_char(p)];
            let rest = spec_rank_fen(s, r, f + 1, 0);
            assert(t == (digits + pc) + rest);
            let sq1: Seq<Piece> = if empt > 0 {
                write_empties(sq, r * 8 + lo, empt)
            } else {
                sq
            };
            // the pending empties, then the piece letter
            if empt > 0 {
                assert(spec_digit_val(spec_digit_char(empt)) == empt);
                assert(digits[0] == spec_digit_char(empt));
                assert(spec_parse_board_state(digits, 0, sq, r, lo) == Ok::<
                    (Seq<Piece>, int, int),
                    int,
                >((sq1, r, f)));
            } else {
                assert(digits.len() == 0);
                assert(spec_parse_board_state(digits, 0, sq, r, lo) == Ok::<
                    (Seq<Piece>, int, int),
                    int,
                >((sq1, r, f)));
            }
            let sq2 = sq1.update(r * 8 + f, p);
            assert(pc[0] == spec_piece_char(p));
            assert(spec_parse_board_state(pc, 0, sq1, r, f) == Ok::<(Seq<Piece>, int, int), int>(
                (sq2, r, f + 1),
            ));
            lemma_parse_board_concat(
                digits,
                pc,
                0,
                sq,
                r,
                lo,
                (sq1, r, f),
                (sq2, r, f + 1),
            );
            lemma_rank_round(s, r, f + 1, 0, sq2);
            let fin = (row_merged(sq2, s, r, f + 1), r, 8int);
            lemma_parse_board_concat(
                digits + pc,
                rest,
                0,
                sq,
                r,
                lo,
                (sq2, r, f + 1),
                fin,
            );
            assert(row_merged(sq2, s, r, f + 1) =~= row_merged(sq, s, r, lo));
        }
    }
}

/// `sq` with every square of ranks `r` down to 0 replaced by the
/// position's values.
pub open spec fn ranks_merged(sq: Seq<Piece>, s: BoardState, r: int) -> Seq<Piece> {
    Seq::new(sq.len(), |j: int| if j < (r + 1) * 8 {
        s.squares[j]
    } else {
        sq[j]
    })
}

/// Parsing the printed placement of ranks `r` down to 0 writes exactly
/// those ranks.
proof fn lemma_placement_round(s: BoardState, r: int, sq: Seq<Piece>)
    requires
        s.wf_squares(),
        0 <= r < 8,
        sq.len() == 64,
    ensures
        spec_parse_board_state(spec_placement_fen(s, r), 0, sq, r, 0) == Ok::<
            (Seq<Piece>, int, int),
            int,
        >((ranks_merged(sq, s, r), 0, 8)),
    decreases r,
{
    reveal_with_fuel(spec_parse_board_state, 3);
    if r == 0 {
        lemma_rank_round(s, 0, 0, 0, sq);
        assert(row_merged(sq, s, 0, 0) =~= ranks_merged(sq, s, 0));
    } else {
        let rank_text = spec_rank_fen(s, r, 0, 0);
        let slash = seq!['/'];
        let rest = spec_placement_fen(s, r - 1);
        assert(spec_placement_fen(s, r) == (rank_text + slash) + rest) by {
            assert((rank_text + slash) + rest =~= rank_text + slash + rest);
        }
        lemma_rank_round(s, r, 0, 0, sq);
        let sq1 = row_merged(sq, s, r, 0);
        assert(sq1.len() == 64);
        assert(spec_digit_val('/') == -1 && spec_piece_from_fen('/') is None);
        assert(spec_parse_board_state(slash, 0, sq1, r, 8) == Ok::<(Seq<Piece>, int, int), int>(
            (sq1, r - 1, 0),
        ));
        lemma_parse_board_concat(rank_text, slash, 0, sq, r, 0, (sq1, r, 8), (sq1, r - 1, 0));
        lemma_placement_round(s, r - 1, sq1);
        let fin = (ranks_merged(sq1, s, r - 1), 0int, 8int);
        lemma_parse_board_concat(rank_text + slash, rest, 0, sq, r, 0, (sq1, r - 1, 0), fin);
        assert(ranks_merged(sq1, s, r - 1) =~= ranks_merged(sq, s, r));
    }
}

/// Every character of a printed number is a digit.
proof fn lemma_dec_digits(n: int)
    requires
        0 <= n,
    ensures
        spec_dec(n).len() >= 1,
        forall|j: int| 0 <= j < spec_dec(n).len() ==> spec_digit_val(#[trigger] spec_dec(n)[j]) >= 0,
    decreases n,
{
    if n >= 10 {
        lemma_dec_digits(n / 10);
        assert forall|j: int| 0 <= j < spec_dec(n).len() implies spec_digit_val(
            #[trigger] spec_dec(n)[j],
        ) >= 0 by {
            if j < spec_dec(n / 10).len() {
                assert(spec_dec(n)[j] == spec_dec(n / 10)[j]);
            } else {
                assert(spec_dec(n)[j] == spec_digit_char(n % 10));
            }
        }
    }
}

/// Extending a digit text by one digit multiplies its value by ten and
/// adds the digit.
proof fn lemma_parse_u32_append(t: Seq<char>, c: char, i: int, acc: int)
    requires
        0 <= i <= t.len(),
        spec_digit_val(c) >= 0,
    ensures
        spec_parse_u32_at(t + seq![c], i, acc) == (match spec_parse_u32_at(t, i, acc) {
            Ok(v) => if v * 10 + spec_digit_val(c) > u32::MAX {
                Err::<int, ()>(())
            } else {
                Ok::<int, ()>(v * 10 + spec_digit_val(c))
            },
            Err(e) => Err(e),
        }),
    decreases t.len() - i,
{
    if i >= t.len() {
        assert((t + seq![c])[i] == c);
        assert(spec_parse_u32_at(t + seq![c], i + 1, acc * 10 + spec_digit_val(c)) == Ok::<
            int,
            (),
        >(acc * 10 + spec_digit_val(c)) || acc * 10 + spec_digit_val(c) > u32::MAX);
    } else {
        assert((t + seq![c])[i] == t[i]);
        if spec_digit_val(t[i]) >= 0 && acc * 10 + spec_digit_val(t[i]) <= u32::MAX {
            lemma_parse_u32_append(t, c, i + 1, acc * 10 + spec_digit_val(t[i]));
        }
    }
}

/// A printed number reads back as itself.
proof fn lemma_dec_round(n: int)
    requires
        0 <= n <= u32::MAX,
    ensures
        spec_parse_u32(spec_dec(n)) == Ok::<int, ()>(n),
    decreases n,
{
    reveal_with_fuel(spec_parse_u32_at, 3);
    lemma_dec_digits(n);
    if n < 10 {
        assert(spec_digit_val(spec_digit_char(n)) == n);
        assert(spec_dec(n)[0] == spec_digit_char(n));
        assert(spec_dec(n)[0] != '+');
        assert(spec_parse_u32_at(spec_dec(n), 0, 0) == Ok::<int, ()>(n));
    } else {
        // peel the last digit off and use the prefix's round trip
        let prefix = spec_dec(n / 10);
        let c = spec_digit_char(n % 10);
        assert(spec_digit_val(c) == n % 10);
        lemma_dec_round(n / 10);
        lemma_dec_digits(n / 10);
        assert(prefix[0] != '+') by {
            assert(spec_digit_val(prefix[0]) >= 0);
        }
        assert(spec_parse_u32_at(prefix, 0, 0) == Ok::<int, ()>(n / 10));
        lemma_parse_u32_append(prefix, c, 0, 0);
        assert((n / 10) * 10 + n % 10 == n);
        assert(spec_dec(n) == prefix + seq![c]);
        assert(spec_parse_u32_at(prefix + seq![c], 0, 0) == (match spec_parse_u32_at(
            prefix,
            0,
            0,
        ) {
            Ok(v) => if v * 10 + spec_digit_val(c) > u32::MAX {
                Err::<int, ()>(())
            } else {
                Ok::<int, ()>(v * 10 + spec_digit_val(c))
            },
            Err(e) => Err(e),
        }));
        assert((n / 10) * 10 + spec_digit_val(c) == n);
        assert(spec_parse_u32_at(spec_dec(n), 0, 0) == Ok::<int, ()>(n));
        assert(spec_dec(n)[0] == prefix[0]);
    }
}

/// A printed castling field reads back as the same set of rights.
proof fn lemma_castle_round(cr: CastleRights)
    ensures
        spec_parse_castle(spec_castle_fen(cr)) == Ok::<CastleRights, int>(cr),
        forall|j: int| 0 <= j < spec_castle_fen(cr).len() ==> #[trigger] spec_castle_fen(cr)[j]
            != ' ',
{
    reveal_with_fuel(spec_parse_castle_at, 6);
    let t = spec_castle_fen(cr);
    let none = CastleRights {
        white_king: false,
        white_queen: false,
        black_king: false,
        black_queen: false,
    };
    if !cr.white_king && !cr.white_queen && !cr.black_king && !cr.black_queen {
        assert(t =~= seq!['-']);
        assert(cr == none);
    } else {
        assert(t.len() >= 1);
        assert(t[0] == 'K' || t[0] == 'Q' || t[0] == 'k' || t[0] == 'q');
        assert(!(t.len() == 1 && t[0] == '-'));
        assert(spec_parse_castle_at(t, 0, none) == Ok::<CastleRights, int>(cr));
    }
}

/// A printed en-passant field reads back as the same target.
proof fn lemma_ep_round(ep: Option<int>)
    requires
        ep matches Some(t) ==> 0 <= t < 64,
    ensures
        spec_parse_ep(spec_ep_fen(ep)) == Ok::<Option<int>, ()>(ep),
        spec_ep_fen(ep).len() >= 1,
        forall|j: int| 0 <= j < spec_ep_fen(ep).len() ==> #[trigger] spec_ep_fen(ep)[j] != ' ',
{
    match ep {
        None => {
            assert(spec_ep_fen(ep) =~= seq!['-']);
        },
        Some(t) => {
            crate::geometry::lemma_square_name_round_trip(t);
            let name = spec_square_name(t);
            assert(name.len() == 2);
            assert(name[0] != ' ' && name[1] != ' ' && name[0] != '-');
            assert(spec_parse_ep(name) == Ok::<Option<int>, ()>(Some(t)));
        },
    }
}

/// No character of a printed rank is a space.
proof fn lemma_rank_fen_chars(s: BoardState, r: int, f: int, empt: int)
    requires
        s.wf_squares(),
        0 <= r < 8,
        0 <= empt <= f <= 8,
    ensures
        forall|j: int|
            0 <= j < spec_rank_fen(s, r, f, empt).len() ==> #[trigger] spec_rank_fen(s, r, f, empt)[j]
                != ' ' && spec_rank_fen(s, r, f, empt)[j] != '/',
    decreases 8 - f,
{
    let t = spec_rank_fen(s, r, f, empt);
    if f >= 8 {
        if empt > 0 {
            assert forall|j: int| 0 <= j < t.len() implies #[trigger] t[j] != ' ' && t[j]
                != '/' by {
                assert(t[j] == spec_digit_char(empt));
            }
        }
    } else {
        let p = s.squares[r * 8 + f];
        assert(p.wf());
        if p.code == 0 {
            lemma_rank_fen_chars(s, r, f + 1, empt + 1);
            assert forall|j: int| 0 <= j < t.len() implies #[trigger] t[j] != ' ' && t[j]
                != '/' by {
                assert(t[j] == spec_rank_fen(s, r, f + 1, empt + 1)[j]);
            }
        } else {
            lemma_piece_char_round(p);
            lemma_rank_fen_chars(s, r, f + 1, 0);
            let digits: Seq<char> = if empt > 0 {
                seq![spec_digit_char(empt)]
            } else {
                Seq::empty()
            };
            let pc = seq![spec_piece_char(p)];
            let rest = spec_rank_fen(s, r, f + 1, 0);
            assert forall|j: int| 0 <= j < t.len() implies #[trigger] t[j] != ' ' && t[j] != '/' by {
                if j < digits.len() {
                    assert(t[j] == digits[0]);
                } else if j < digits.len() + 1 {
                    assert(t[j] == spec_piece_char(p));
                } else {
                    assert(t[j] == rest[j - digits.len() - 1]);
                }
            }
        }
    }
}

/// No character of a printed placement is a space.
proof fn lemma_placement_fen_chars(s: BoardState, r: int)
    requires
        s.wf_squares(),
        0 <= r < 8,
    ensures
        forall|j: int|
            0 <= j < spec_placement_fen(s, r).len() ==> #[trigger] spec_placement_fen(s, r)[j]
                != ' ',
    decreases r,
{
    lemma_rank_fen_chars(s, r, 0, 0);
    if r > 0 {
        lemma_placement_fen_chars(s, r - 1);
        let rank_text = spec_rank_fen(s, r, 0, 0);
        let rest = spec_placement_fen(s, r - 1);
        let t = spec_placement_fen(s, r);
        assert forall|j: int| 0 <= j < t.len() implies #[trigger] t[j] != ' ' by {
            if j < rank_text.len() {
                assert(t[j] == rank_text[j]);
            } else if j < rank_text.len() + 1 {
                assert(t[j] == '/');
            } else {
                assert(t[j] == rest[j - rank_text.len() - 1]);
            }
        }
    }
}

/// Splitting runs to the next space: the characters up to it extend the
/// current field, which ends there.
proof fn lemma_fields_take(t: Seq<char>, i: int, cur: Seq<char>, k: int)
    requires
        0 <= i,
        0 <= k,
        i + k < t.len(),
        forall|j: int| i <= j < i + k ==> #[trigger] t[j] != ' ',
        t[i + k] == ' ',
    ensures
        spec_fields_acc(t, i, cur) == seq![cur + t.subrange(i, i + k)] + spec_fields_acc(
            t,
            i + k + 1,
            Seq::empty(),
        ),
    decreases k,
{
    if k == 0 {
        assert(cur + t.subrange(i, i) =~= cur);
    } else {
        assert(t[i] != ' ');
        lemma_fields_take(t, i + 1, cur.push(t[i]), k - 1);
        assert(cur.push(t[i]) + t.subrange(i + 1, i + k) =~= cur + t.subrange(i, i + k));
    }
}

/// Splitting a space-free tail yields one final field.
proof fn lemma_fields_last(t: Seq<char>, i: int, cur: Seq<char>)
    requires
        0 <= i <= t.len(),
        forall|j: int| i <= j < t.len() ==> #[trigger] t[j] != ' ',
    ensures
        spec_fields_acc(t, i, cur) == seq![cur + t.subrange(i, t.len() as int)],
    decreases t.len() - i,
{
    if i >= t.len() {
        assert(cur + t.subrange(i, t.len() as int) =~= cur);
    } else {
        lemma_fields_last(t, i + 1, cur.push(t[i]));
        assert(cur.push(t[i]) + t.subrange(i + 1, t.len() as int) =~= cur + t.subrange(
            i,
            t.len() as int,
        ));
    }
}

/// Splitting continues past a prefix unchanged.
proof fn lemma_fields_shift(t1: Seq<char>, t2: Seq<char>, j: int, cur: Seq<char>)
    requires
        0 <= j <= t2.len(),
    ensures
        spec_fields_acc(t1 + t2, t1.len() + j, cur) == spec_fields_acc(t2, j, cur),
    decreases t2.len() - j,
{
    if j >= t2.len() {
    } else {
        assert((t1 + t2)[t1.len() + j] == t2[j]);
        if t2[j] == ' ' {
            lemma_fields_shift(t1, t2, j + 1, Seq::empty());
        } else {
            lemma_fields_shift(t1, t2, j + 1, cur.push(t2[j]));
        }
    }
}

/// Splitting a space-free field, a space and a remainder yields the field
/// and then the remainder's fields.
proof fn lemma_fields_peel(fld: Seq<char>, rest: Seq<char>)
    requires
        forall|j: int| 0 <= j < fld.len() ==> #[trigger] fld[j] != ' ',
    ensures
        spec_fields(fld + (seq![' '] + rest)) == seq![fld] + spec_fields(rest),
{
    let t = fld + (seq![' '] + rest);
    assert forall|j: int| 0 <= j < fld.len() implies #[trigger] t[j] != ' ' by {
        assert(t[j] == fld[j]);
    }
    assert(t[fld.len() as int] == ' ');
    lemma_fields_take(t, 0, Seq::empty(), fld.len() as int);
    assert(Seq::empty() + t.subrange(0, fld.len() as int) =~= fld);
    assert(t =~= (fld + seq![' ']) + rest);
    lemma_fields_shift(fld + seq![' '], rest, 0, Seq::empty());
    assert(spec_fields_acc(t, fld.len() as int + 1, Seq::empty()) == spec_fields_acc(rest, 0, Seq::empty()));
}

proof fn lemma_seq_assoc(a: Seq<char>, b: Seq<char>, c: Seq<char>)
    ensures
        (a + b) + c == a + (b + c),
{
    assert((a + b) + c =~= a + (b + c));
}

/// The assembled FEN text splits back into exactly its six fields.
#[verifier::rlimit(100)]
#[verifier::spinoff_prover]
proof fn lemma_fen_fields(s: BoardState)
    requires
        s.wf_squares(),
        s.en_passant matches Some(t) ==> 0 <= t < 64,
    ensures
        spec_fields(spec_fen(s)) == seq![
            spec_placement_fen(s, 7),
            (if s.active_color is White {
                seq!['w']
            } else {
                seq!['b']
            }),
            spec_castle_fen(s.castle_rights),
            spec_ep_fen(s.en_passant),
            spec_dec(s.halfmove as int),
            spec_dec(s.fullmove as int),
        ],
{
    let pl = spec_placement_fen(s, 7);
    let cw: Seq<char> = if s.active_color is White {
        seq!['w']
    } else {
        seq!['b']
    };
    let ca = spec_castle_fen(s.castle_rights);
    let ep = spec_ep_fen(s.en_passant);
    let h = spec_dec(s.halfmove as int);
    let f = spec_dec(s.fullmove as int);
    let sp = seq![' '];
    let t = spec_fen(s);

    lemma_placement_fen_chars(s, 7);
    lemma_castle_round(s.castle_rights);
    lemma_ep_round(s.en_passant);
    lemma_dec_digits(s.halfmove as int);
    lemma_dec_digits(s.fullmove as int);
    let rest4 = h + (sp + f);
    let rest3 = ep + (sp + rest4);
    let rest2 = ca + (sp + rest3);
    let rest1 = cw + (sp + rest2);
    // re-associate the assembled text into field-space-remainder form
    let a8 = ((((((((pl + sp) + cw) + sp) + ca) + sp) + ep) + sp) + h);
    assert(t == (a8 + sp) + f);
    lemma_seq_assoc(a8, sp, f);
    let a7 = (((((((pl + sp) + cw) + sp) + ca) + sp) + ep) + sp);
    lemma_seq_assoc(a7, h, sp + f);
    let a6 = ((((((pl + sp) + cw) + sp) + ca) + sp) + ep);
    lemma_seq_assoc(a6, sp, rest4);
    let a5 = (((((pl + sp) + cw) + sp) + ca) + sp);
    lemma_seq_assoc(a5, ep, sp + rest4);
    let a4 = ((((pl + sp) + cw) + sp) + ca);
    lemma_seq_assoc(a4, sp, rest3);
    let a3 = (((pl + sp) + cw) + sp);
    lemma_seq_assoc(a3, ca, sp + rest3);
    let a2 = ((pl + sp) + cw);
    lemma_seq_assoc(a2, sp, rest2);
    let a1 = (pl + sp);
    lemma_seq_assoc(a1, cw, sp + rest2);
    lemma_seq_assoc(pl, sp, rest1);
    assert(t == pl + (sp + rest1));
    lemma_fields_peel(pl, rest1);
    lemma_fields_peel(cw, rest2);
    lemma_fields_peel(ca, rest3);
    lemma_fields_peel(ep, rest4);
    assert forall|j: int| 0 <= j < h.len() implies #[trigger] h[j] != ' ' by {
        assert(spec_digit_val(h[j]) >= 0);
    }
    lemma_fields_peel(h, f);
    assert forall|j: int| 0 <= j < f.len() implies #[trigger] f[j] != ' ' by {
        assert(spec_digit_val(f[j]) >= 0);
    }
    lemma_fields_last(f, 0, Seq::empty());
    assert(Seq::empty() + f.subrange(0, f.len() as int) =~= f);
    assert(spec_fields(t) =~= seq![pl, cw, ca, ep, h, f]);
}

/// Writing a reachable position as FEN and reading the text back yields
/// the same position: the placement, active color, castling rights,
/// en-passant target and both counters all survive the round trip.
#[verifier::rlimit(100)]
#[verifier::spinoff_prover]
pub proof fn lemma_fen_round_trip(s: BoardState)
    requires
        s.wf_squares(),
        s.en_passant matches Some(t) ==> 0 <= t < 64,
    ensures
        spec_load_fen(spec_fen(s)) == Ok::<BoardState, FenErr>(s),
{
    let pl = spec_placement_fen(s, 7);
    let cw: Seq<char> = if s.active_color is White {
        seq!['w']
    } else {
        seq!['b']
    };
    let ca = spec_castle_fen(s.castle_rights);
    let ep = spec_ep_fen(s.en_passant);
    let h = spec_dec(s.halfmove as int);
    let f = spec_dec(s.fullmove as int);
    let t = spec_fen(s);

    lemma_fen_fields(s);
    let fields = spec_fields(t);
    assert(fields.len() == 6 && fields[0] == pl && fields[1] == cw && fields[2] == ca && fields[3]
        == ep && fields[4] == h && fields[5] == f);

    // each field reads back as the component it was written from
    let init = Seq::new(64, |j: int| Piece { code: 0 });
    lemma_placement_round(s, 7, init);
    lemma_parse_board_state_at(pl, 0, init, 7, 0);
    assert(ranks_merged(init, s, 7) =~= s.squares);
    assert(spec_parse_placement(pl) == Ok::<Seq<Piece>, int>(s.squares));
    assert(spec_parse_color(cw) == Ok::<Player, ()>(s.active_color));
    lemma_castle_round(s.castle_rights);
    lemma_ep_round(s.en_passant);
    lemma_dec_round(s.halfmove as int);
    lemma_dec_round(s.fullmove as int);
    assert(spec_load_fen(t) == Ok::<BoardState, FenErr>(s));
}

/// The decimal digit string of a value below ten.
fn digit_str(d: u32) -> (r: &'static str)
    requires
        d < 10,
    ensures
        r@ == seq![spec_digit_char(d as int)],
{
    proof {
        reveal_strlit("0");
        reveal_strlit("1");
        reveal_strlit("2");
        reveal_strlit("3");
        reveal_strlit("4");
        reveal_strlit("5");
        reveal_strlit("6");
        reveal_strlit("7");
        reveal_strlit("8");
        reveal_strlit("9");
    }
    match d {
        0 => "0",
        1 => "1",
        2 => "2",
        3 => "3",
        4 => "4",
        5 => "5",
        6 => "6",
        7 => "7",
        8 => "8",
        _ => "9",
    }
}

/// Writes a number in decimal.
fn u32_dec(n: u32) -> (r: String)
    ensures
        r@ == spec_dec(n as int),
    decreases n,
{
    if n < 10 {
        String::from_str(digit_str(n))
    } else {
        let mut s = u32_dec(n / 10);
        s.append(digit_str(n % 10));
        s
    }
}

/// The FEN letter of a well-formed occupied square.
fn piece_fen_str(p: Piece) -> (r: &'static str)
    requires
        p.wf(),
        p.code != 0,
    ensures
        r@ == seq![spec_piece_char(p)],
{
    proof {
        reveal_strlit("K");
        reveal_strlit("P");
        reveal_strlit("N");
        reveal_strlit("B");
        reveal_strlit("R");
        reveal_strlit("Q");
        reveal_strlit("k");
        reveal_strlit("p");
        reveal_strlit("n");
        reveal_strlit("b");
        reveal_strlit("r");
        reveal_strlit("q");
    }
    let k = p.piece_type();
    if p.color() == WHITE {
        if k == KING {
            "K"
        } else if k == PAWN {
            "P"
        } else if k == KNIGHT {
            "N"
        } else if k == BISHOP {
            "B"
        } else if k == ROOK {
            "R"
        } else {
            "Q"
        }
    } else {
        if k == KING {
            "k"
        } else if k == PAWN {
            "p"
        } else if k == KNIGHT {
            "n"
        } else if k == BISHOP {
            "b"
        } else if k == ROOK {
            "r"
        } else {
            "q"
        }
    }
}

/// The fields named by index ranges into the text.
pub open spec fn ranges_fields(s: Seq<char>, r: Seq<(usize, usize)>) -> Seq<Seq<char>> {
    Seq::new(r.len(), |k: int| s.subrange(r[k].0 as int, r[k].1 as int))
}

/// The value of a decimal digit character.
fn digit_val(c: char) -> (r: Option<u32>)
    ensures
        spec_digit_val(c) >= 0 ==> r == Some(spec_digit_val(c) as u32),
        spec_digit_val(c) < 0 ==> r is None,
{
    match c {
        '0' => Some(0),
        '1' => Some(1),
        '2' => Some(2),
        '3' => Some(3),
        '4' => Some(4),
        '5' => Some(5),
        '6' => Some(6),
        '7' => Some(7),
        '8' => Some(8),
        '9' => Some(9),
        _ => None,
    }
}

/// Splits the text on every space, returning each field's index range.
fn split_fields(fen: &str) -> (r: Vec<(usize, usize)>)
    ensures
        forall|k: int| 0 <= k < r@.len() ==> (#[trigger] r@[k]).0 <= r@[k].1 <= fen@.len(),
        ranges_fields(fen@, r@) == spec_fields(fen@),
        r@.len() >= 1,
{
    let len = fen.unicode_len();
    let mut r: Vec<(usize, usize)> = Vec::new();
    let mut st: usize = 0;
    let mut i: usize = 0;
    proof {
        assert(fen@.subrange(0, 0) =~= Seq::<char>::empty());
        assert(ranges_fields(fen@, r@) =~= Seq::<Seq<char>>::empty());
        assert(Seq::<Seq<char>>::empty() + spec_fields_acc(fen@, 0, Seq::<char>::empty())
            =~= spec_fields_acc(fen@, 0, Seq::<char>::empty()));
    }
    while i < len
        invariant
            st <= i <= len,
            len == fen@.len(),
            forall|k: int| 0 <= k < r@.len() ==> (#[trigger] r@[k]).0 <= r@[k].1 <= fen@.len(),
            spec_fields(fen@) == ranges_fields(fen@, r@) + spec_fields_acc(
                fen@,
                i as int,
                fen@.subrange(st as int, i as int),
            ),
        decreases len - i,
    {
        let ghost cur = fen@.subrange(st as int, i as int);
        let c = fen.get_char(i);
        if c == ' ' {
            let ghost pre = r@;
            r.push((st, i));
            proof {
                let rest = spec_fields_acc(fen@, i as int + 1, Seq::empty());
                assert(spec_fields_acc(fen@, i as int, cur) == seq![cur] + rest);
                assert(ranges_fields(fen@, r@) =~= ranges_fields(fen@, pre) + seq![cur]);
                assert(ranges_fields(fen@, pre) + (seq![cur] + rest) =~= (ranges_fields(fen@, pre)
                    + seq![cur]) + rest);
            }
            st = i + 1;
            proof {
                assert(fen@.subrange(st as int, i as int + 1) =~= Seq::<char>::empty());
            }
        } else {
            proof {
                assert(fen@.subrange(st as int, i as int + 1) =~= cur.push(fen@[i as int]));
            }
        }
        i += 1;
    }
    let ghost pre = r@;
    let ghost cur = fen@.subrange(st as int, len as int);
    r.push((st, len));
    proof {
        assert(spec_fields_acc(fen@, len as int, cur) == seq![cur]);
        assert(ranges_fields(fen@, r@) =~= ranges_fields(fen@, pre) + seq![cur]);
    }
    r
}

/// Parses the placement field onto an empty board.
fn parse_board_field(board: &str) -> (r: Result<[Piece; 64], FenParseErr>)
    ensures
        match spec_parse_placement(board@) {
            Ok(sq) => r matches Ok(arr) && arr@ == sq && (forall|j: int|
                0 <= j < 64 ==> (#[trigger] arr@[j]).wf()),
            Err(ci) => r matches Err(e) && err_matches(
                e,
                FenErr::Invalid { part: FenPart::Board, char_idx: ci },
            ),
        },
{
    let len = board.unicode_len();
    let mut sq: [Piece; 64] = [Piece { code: 0 }; 64];
    let mut rank: usize = 7;
    let mut file: usize = 0;
    let mut i: usize = 0;
    proof {
        assert(sq@ =~= Seq::new(64, |j: int| Piece { code: 0 }));
    }
    while i < len
        invariant
            i <= len,
            len == board@.len(),
            rank <= 7,
            file <= 64,
            forall|j: int| 0 <= j < 64 ==> (#[trigger] sq@[j]).wf(),
            spec_parse_board_at(board@, i as int, sq@, rank as int, file as int)
                == spec_parse_placement(board@),
        decreases len - i,
    {
        let c = board.get_char(i);
        if c == '/' {
            if rank == 0 {
                return Err(FenParseErr::invalid(FenPart::Board, i, "overran board"));
            }
            rank -= 1;
            file = 0;
        } else {
            match digit_val(c) {
                Some(num) => {
                    let num = num as usize;
                    if rank * 8 + file + num > 64 {
                        return Err(FenParseErr::invalid(FenPart::Board, i, "overran board"));
                    }
                    let base = rank * 8 + file;
                    let ghost sq0 = sq@;
                    let mut idx: usize = 0;
                    while idx < num
                        invariant
                            idx <= num,
                            base + num <= 64,
                            sq@.len() == 64,
                            sq0.len() == 64,
                            forall|j: int|
                                0 <= j < 64 ==> #[trigger] sq@[j] == (if base <= j < base + idx {
                                    Piece { code: 0 }
                                } else {
                                    sq0[j]
                                }),
                        decreases num - idx,
                    {
                        sq[base + idx] = Piece { code: 0 };
                        idx += 1;
                    }
                    proof {
                        assert(sq@ =~= write_empties(sq0, base as int, num as int));
                    }
                    file += num;
                },
                None => {
                    match piece_from_fen(c) {
                        Some(p) => {
                            if rank * 8 + file >= 64 {
                                return Err(
                                    FenParseErr::invalid(FenPart::Board, i, "overran board"),
                                );
                            }
                            sq[rank * 8 + file] = p;
                            file += 1;
                        },
                        None => {
                            return Err(FenParseErr::invalid(FenPart::Board, i, "invalid char"));
                        },
                    }
                },
            }
        }
        i += 1;
    }
    Ok(sq)
}

/// Parses the active-color field: exactly "w" or "b".
fn parse_active_color_field(t: &str) -> (r: Result<Player, FenParseErr>)
    ensures
        match spec_parse_color(t@) {
            Ok(p) => r == Ok::<Player, FenParseErr>(p),
            Err(_) => r matches Err(e) && err_matches(
                e,
                FenErr::Invalid { part: FenPart::ActiveColor, char_idx: 0 },
            ),
        },
{
    if t.unicode_len() == 1 {
        let c = t.get_char(0);
        if c == 'w' {
            return Ok(Player::White);
        }
        if c == 'b' {
            return Ok(Player::Black);
        }
    }
    Err(FenParseErr::invalid(FenPart::ActiveColor, 0, "the active color must be 'w' or 'b'"))
}

/// Parses the castling field.
fn parse_castling_field(t: &str) -> (r: Result<CastleRights, FenParseErr>)
    ensures
        match spec_parse_castle(t@) {
            Ok(cr) => r == Ok::<CastleRights, FenParseErr>(cr),
            Err(ci) => r matches Err(e) && err_matches(
                e,
                FenErr::Invalid { part: FenPart::CastleRights, char_idx: ci },
            ),
        },
{
    let len = t.unicode_len();
    if len == 1 {
        let c = t.get_char(0);
        if c == '-' {
            return Ok(CastleRights::none());
        }
    }
    let mut cr = CastleRights::none();
    let mut i: usize = 0;
    while i < len
        invariant
            i <= len,
            len == t@.len(),
            !(t@.len() == 1 && t@[0] == '-'),
            spec_parse_castle_at(t@, i as int, cr) == spec_parse_castle(t@),
        decreases len - i,
    {
        let c = t.get_char(i);
        if c == 'K' {
            cr.white_king = true;
        } else if c == 'Q' {
            cr.white_queen = true;
        } else if c == 'k' {
            cr.black_king = true;
        } else if c == 'q' {
            cr.black_queen = true;
        } else {
            return Err(
                FenParseErr::invalid(
                    FenPart::CastleRights,
                    i,
                    "character must be either 'K', 'Q', 'k', or 'q'",
                ),
            );
        }
        i += 1;
    }
    Ok(cr)
}

/// Parses the en-passant field: "-" or a square name.
fn parse_en_passant_field(t: &str) -> (r: Result<Option<usize>, FenParseErr>)
    ensures
        match spec_parse_ep(t@) {
            Ok(ep) => r matches Ok(e) && (match (e, ep) {
                (Some(a), Some(b)) => a as int == b,
                (None, None) => true,
                _ => false,
            }),
            Err(_) => r matches Err(e) && err_matches(
                e,
                FenErr::Invalid { part: FenPart::EnPassant, char_idx: 0 },
            ),
        },
{
    if t.unicode_len() == 1 {
        let c = t.get_char(0);
        if c == '-' {
            return Ok(None);
        }
    }
    match square_name_to_idx(t) {
        Some(idx) => Ok(Some(idx)),
        None => Err(
            FenParseErr::invalid(
                FenPart::EnPassant,
                0,
                "the en passant section must be a board position or a '-'",
            ),
        ),
    }
}

/// Parses a counter field as an unsigned 32-bit number.
fn parse_u32_field(t: &str, part: FenPart, err_msg: &'static str) -> (r: Result<u32, FenParseErr>)
    ensures
        match spec_parse_u32(t@) {
            Ok(v) => r == Ok::<u32, FenParseErr>(v as u32),
            Err(_) => r matches Err(e) && err_matches(
                e,
                FenErr::Invalid { part, char_idx: 0 },
            ),
        },
{
    let len = t.unicode_len();
    if len == 0 {
        return Err(FenParseErr::invalid(part, 0, err_msg));
    }
    let first = t.get_char(0);
    let st: usize = if first == '+' {
        1
    } else {
        0
    };
    if len <= st {
        return Err(FenParseErr::invalid(part, 0, err_msg));
    }
    let mut acc: u64 = 0;
    let mut i: usize = st;
    proof {
        assert(spec_parse_u32(t@) == spec_parse_u32_at(t@, st as int, 0));
    }
    while i < len
        invariant
            st <= i <= len,
            len == t@.len(),
            acc <= u32::MAX,
            spec_parse_u32(t@) == spec_parse_u32_at(t@, i as int, acc as int),
        decreases len - i,
    {
        let c = t.get_char(i);
        match digit_val(c) {
            Some(d) => {
                acc = acc * 10 + d as u64;
                if acc > u32::MAX as u64 {
                    return Err(FenParseErr::invalid(part, 0, err_msg));
                }
            },
            None => {
                return Err(FenParseErr::invalid(part, 0, err_msg));
            },
        }
        i += 1;
    }
    Ok(acc as u32)
}

impl Board {
    /// Parses a FEN string and replaces the position with it. On any
    /// rejection the position is left untouched.
    pub fn load_fen(&mut self, fen: &str) -> (r: Result<(), FenParseErr>)
        ensures
            match spec_load_fen(fen@) {
                Ok(st) => r is Ok && final(self)@ == st && final(self)@.wf_squares(),
                Err(g) => (r matches Err(e) && err_matches(e, g)) && final(self)@ == old(self)@,
            },
    {
        let ranges = split_fields(fen);
        let n = ranges.len();
        if n < 6 {
            let part = if n == 1 {
                FenPart::ActiveColor
            } else if n == 2 {
                FenPart::CastleRights
            } else if n == 3 {
                FenPart::EnPassant
            } else if n == 4 {
                FenPart::HalfMove
            } else {
                FenPart::FullMove
            };
            return Err(FenParseErr::missing(part));
        }
        if n > 6 {
            return Err(FenParseErr::TooManyComponents);
        }
        let (s0, e0) = ranges[0];
        let (s1, e1) = ranges[1];
        let (s2, e2) = ranges[2];
        let (s3, e3) = ranges[3];
        let (s4, e4) = ranges[4];
        let (s5, e5) = ranges[5];
        let sq = match parse_board_field(fen.substring_char(s0, e0)) {
            Ok(sq) => sq,
            Err(e) => { return Err(e); },
        };
        let ac = match parse_active_color_field(fen.substring_char(s1, e1)) {
            Ok(ac) => ac,
            Err(e) => { return Err(e); },
        };
        let cr = match parse_castling_field(fen.substring_char(s2, e2)) {
            Ok(cr) => cr,
            Err(e) => { return Err(e); },
        };
        let ep = match parse_en_passant_field(fen.substring_char(s3, e3)) {
            Ok(ep) => ep,
            Err(e) => { return Err(e); },
        };
        let half = match parse_u32_field(
            fen.substring_char(s4, e4),
            FenPart::HalfMove,
            "halfmove part of the fen should be an unsigned int",
        ) {
            Ok(v) => v,
            Err(e) => { return Err(e); },
        };
        let full = match parse_u32_field(
            fen.substring_char(s5, e5),
            FenPart::FullMove,
            "fullmove part of the fen should be an unsigned int",
        ) {
            Ok(v) => v,
            Err(e) => { return Err(e); },
        };
        self.squares = sq;
        self.active_color = ac;
        self.castle_rights = cr;
        self.en_passant = ep;
        self.halfmove = half;
        self.fullmove = full;
        Ok(())
    }
}

impl CastleRights {
    /// Writes the rights as their FEN field.
    pub fn to_fen(&self) -> (r: String)
        ensures
            r@ == spec_castle_fen(*self),
    {
        proof {
            reveal_strlit("K");
            reveal_strlit("Q");
            reveal_strlit("k");
            reveal_strlit("q");
            reveal_strlit("-");
        }
        let mut output = String::new();
        if self.white_king {
            output.append("K");
        }
        if self.white_queen {
            output.append("Q");
        }
        if self.black_king {
            output.append("k");
        }
        if self.black_queen {
            output.append("q");
        }
        if output.unicode_len() == 0 {
            output.append("-");
        }
        proof {
            assert(output@ =~= spec_castle_fen(*self));
        }
        output
    }
}

impl Board {
    fn get_fen_en_passant(&self) -> (r: String)
        ensures
            r@ == spec_ep_fen(self@.en_passant),
    {
        proof {
            reveal_strlit("-");
        }
        match self.en_passant {
            Some(idx) => match idx_to_square_name(idx) {
                Some(s) => s,
                None => String::from_str("-"),
            },
            None => String::from_str("-"),
        }
    }

    fn get_fen_piece_placement(&self) -> (r: String)
        requires
            self@.wf_squares(),
        ensures
            r@ == spec_placement_fen(self@, 7),
    {
        let ghost s = self@;
        proof {
            reveal_strlit("/");
        }
        let mut output = String::new();
        let mut rank: usize = 8;
        while rank > 0
            invariant
                rank <= 8,
                s == self@,
                s.wf_squares(),
                rank == 8 ==> output@ == Seq::<char>::empty(),
                0 < rank < 8 ==> spec_placement_fen(s, 7) == output@ + spec_placement_fen(
                    s,
                    rank as int - 1,
                ),
                rank == 0 ==> spec_placement_fen(s, 7) == output@,
            decreases rank,
        {
            rank -= 1;
            let ghost out0 = output@;
            proof {
                reveal_strlit("/");
                if rank == 7 {
                    assert(out0 + spec_placement_fen(s, 7) =~= spec_placement_fen(s, 7));
                }
                assert(spec_placement_fen(s, 7) == out0 + spec_placement_fen(s, rank as int));
            }
            let mut empty: u32 = 0;
            let mut file: usize = 0;
            while file < 8
                invariant
                    file <= 8,
                    empty <= file,
                    s == self@,
                    s.wf_squares(),
                    rank < 8,
                    out0 + spec_rank_fen(s, rank as int, 0, 0) == output@ + spec_rank_fen(
                        s,
                        rank as int,
                        file as int,
                        empty as int,
                    ),
                decreases 8 - file,
            {
                let ghost prev = output@;
                let piece = self.squares[rank * 8 + file];
                if piece.is_empty() {
                    empty += 1;
                } else {
                    if empty != 0 {
                        output.append(digit_str(empty));
                    }
                    output.append(piece_fen_str(piece));
                    proof {
                        let digits: Seq<char> = if empty > 0 {
                            seq![spec_digit_char(empty as int)]
                        } else {
                            Seq::empty()
                        };
                        let pc = seq![spec_piece_char(s.squares[rank as int * 8 + file as int])];
                        let rest = spec_rank_fen(s, rank as int, file as int + 1, 0);
                        assert(output@ =~= prev + (digits + pc));
                        assert(spec_rank_fen(s, rank as int, file as int, empty as int) == (digits
                            + pc) + rest);
                        assert((prev + (digits + pc)) + rest =~= prev + ((digits + pc) + rest));
                    }
                    empty = 0;
                }
                file += 1;
            }
            if empty != 0 {
                output.append(digit_str(empty));
            }
            proof {
                assert(output@ =~= out0 + spec_rank_fen(s, rank as int, 0, 0));
            }
            if rank != 0 {
                output.append("/");
                proof {
                    let rf = spec_rank_fen(s, rank as int, 0, 0);
                    let tail = spec_placement_fen(s, rank as int - 1);
                    assert(spec_placement_fen(s, rank as int) == (rf + seq!['/']) + tail) by {
                        assert((rf + seq!['/']) + tail =~= rf + seq!['/'] + tail);
                    }
                    assert(output@ =~= out0 + (rf + seq!['/']));
                    assert((out0 + (rf + seq!['/'])) + tail =~= out0 + ((rf + seq!['/']) + tail));
                    assert(spec_placement_fen(s, 7) == output@ + tail);
                }
            } else {
                proof {
                    assert(spec_placement_fen(s, 0) == spec_rank_fen(s, 0, 0, 0));
                    assert(spec_placement_fen(s, 7) == output@);
                }
            }
        }
        output
    }

    /// Writes the position as its six-field FEN text.
    pub fn get_fen(&self) -> (r: String)
        requires
            self@.wf_squares(),
        ensures
            r@ == spec_fen(self@),
    {
        proof {
            reveal_strlit(" ");
            reveal_strlit("w");
            reveal_strlit("b");
        }
        let mut out = self.get_fen_piece_placement();
        out.append(" ");
        match self.active_color {
            Player::White => out.append("w"),
            Player::Black => out.append("b"),
        }
        out.append(" ");
        let castle = self.castle_rights.to_fen();
        out.append(castle.as_str());
        out.append(" ");
        let ep = self.get_fen_en_passant();
        out.append(ep.as_str());
        out.append(" ");
        let half = u32_dec(self.halfmove);
        out.append(half.as_str());
        out.append(" ");
        let full = u32_dec(self.fullmove);
        out.append(full.as_str());
        proof {
            assert(out@ =~= spec_fen(self@));
        }
        out
    }
}

} // verus!

use hourglass_engine::Board;
use hourglass_engine::CastleRights;
use hourglass_engine::Direction;
use hourglass_engine::InvalidMoveErr;
use hourglass_engine::Move;
use hourglass_engine::{idx_to_square_name, square_name_to_idx, squares_to_edge};

#[test]
fn test_squares_to_edge() {
    assert_eq!(squares_to_edge(0, Direction::North), 7);
    assert_eq!(squares_to_edge(0, Direction::South), 0);
    assert_eq!(squares_to_edge(0, Direction::West), 0);
    assert_eq!(squares_to_edge(0, Direction::East), 7);

    assert_eq!(squares_to_edge(3, Direction::North), 7);
    assert_eq!(squares_to_edge(3, Direction::South), 0);
    assert_eq!(squares_to_edge(3, Direction::West), 3);
    assert_eq!(squares_to_edge(3, Direction::East), 4);

    assert_eq!(squares_to_edge(27, Direction::North), 4);
    assert_eq!(squares_to_edge(27, Direction::South), 3);
    assert_eq!(squares_to_edge(27, Direction::West), 3);
    assert_eq!(squares_to_edge(27, Direction::East), 4);

    // Non-Cardinal
    assert_eq!(squares_to_edge(0, Direction::NorthWest), 0);
    assert_eq!(squares_to_edge(0, Direction::NorthEast), 7);
    assert_eq!(squares_to_edge(0, Direction::SouthWest), 0);
    assert_eq!(squares_to_edge(0, Direction::SouthEast), 0);

    assert_eq!(squares_to_edge(3, Direction::NorthWest), 3);
    assert_eq!(squares_to_edge(3, Direction::NorthEast), 4);
    assert_eq!(squares_to_edge(3, Direction::SouthWest), 0);
    assert_eq!(squares_to_edge(3, Direction::SouthEast), 0);

    assert_eq!(squares_to_edge(27, Direction::NorthWest), 3);
    assert_eq!(squares_to_edge(27, Direction::NorthEast), 4);
    assert_eq!(squares_to_edge(27, Direction::SouthWest), 3);
    assert_eq!(squares_to_edge(27, Direction::SouthEast), 3);
}

#[test]
fn test_idx_to_square_name() {
    let square_names = ["a1", "b1", "c3", "h8"];
    let square_idxs = [0, 1, 18, 63];

    for (square_name, square_idx) in square_names.iter().zip(square_idxs) {
        assert_eq!(*square_name, idx_to_square_name(square_idx).unwrap());
        assert_eq!(square_idx, square_name_to_idx(square_name).unwrap());
    }
}

#[test]
fn revoke_castle_rights() {
    let mut castle_rights = CastleRights::all();
    castle_rights.revoke(CastleRights::white_king_side());
    assert_eq!(
        castle_rights,
        CastleRights::white_queen_side()
            .union(CastleRights::black_queen_side())
            .union(CastleRights::black_king_side())
    );
}

#[test]
fn test_try_move() {
    let mut board = Board::new();
    // e2 to e4 should be a valid starting move.
    board.try_move(Move::from_str("e2e4").unwrap()).unwrap();
}

#[test]
fn start_position_has_twenty_moves() {
    let board = Board::new();
    assert_eq!(board.generate_moves().len(), 20);
}

fn play(board: &mut Board, text: &str) {
    let m = Move::from_str(text).unwrap();
    board.try_move(m).unwrap();
}

#[test]
fn en_passant_capture_available_then_cleared() {
    let mut board = Board::new();
    play(&mut board, "e2e4");
    play(&mut board, "a7a6");
    play(&mut board, "e4e5");
    play(&mut board, "d7d5");
    // black just double pushed d7d5; the skipped square is d6
    let d6 = square_name_to_idx("d6").unwrap();
    let captures: Vec<Move> = board
        .generate_moves()
        .into_iter()
        .filter(|m| m.to == d6)
        .collect();
    // exactly one correct diagonal capture targets the skipped square
    assert_eq!(captures.len(), 1);
    let e5 = square_name_to_idx("e5").unwrap();
    assert_eq!(captures[0].from, e5);
    // capturing en passant removes the double-pushed pawn
    let mut taken = board;
    taken.try_move(captures[0]).unwrap();
    let d5 = square_name_to_idx("d5").unwrap();
    assert!(taken.piece_at_idx(d5).is_empty());
    assert!(!taken.piece_at_idx(d6).is_empty());
    assert!(taken.get_fen().contains(" - "));
}

#[test]
fn en_passant_target_cleared_when_unused() {
    let mut board = Board::new();
    play(&mut board, "e2e4");
    assert!(board.get_fen().contains(" e3 "));
    // any reply clears the target after one ply
    play(&mut board, "g8f6");
    assert!(board.get_fen().contains(" - "));
}

#[test]
fn castling_rights_revoked_permanently() {
    let mut board = Board::empty();
    board
        .load_fen("r3k2r/8/8/8/8/8/8/R3K2R w KQkq - 0 1")
        .unwrap();
    // the king-side rook leaves its home square and returns
    play(&mut board, "h1h2");
    play(&mut board, "h8h7");
    play(&mut board, "h2h1");
    play(&mut board, "h7h8");
    // both king-side rights stay revoked; the queen-side rights survive
    let fen = board.get_fen();
    assert!(fen.contains(" Qq "), "fen was {fen}");
    // the king-side castle is no longer generated
    let e1 = square_name_to_idx("e1").unwrap();
    let g1 = square_name_to_idx("g1").unwrap();
    let c1 = square_name_to_idx("c1").unwrap();
    let moves = board.generate_moves();
    assert!(!moves.iter().any(|m| m.from == e1 && m.to == g1));
    assert!(moves.iter().any(|m| m.from == e1 && m.to == c1));
}

#[test]
fn castle_excluded_when_crossing_square_attacked() {
    let mut board = Board::empty();
    // the black bishop on b5 attacks f1, a square the king would cross
    board
        .load_fen("r3k2r/8/8/1b6/8/8/8/R3K2R w KQkq - 0 1")
        .unwrap();
    let e1 = square_name_to_idx("e1").unwrap();
    let g1 = square_name_to_idx("g1").unwrap();
    let c1 = square_name_to_idx("c1").unwrap();
    let moves = board.generate_moves();
    assert!(!moves.iter().any(|m| m.from == e1 && m.to == g1));
    assert!(moves.iter().any(|m| m.from == e1 && m.to == c1));
}

#[test]
fn castle_excluded_when_intervening_square_occupied() {
    let board = Board::new();
    // every intervening square is occupied in the starting position
    let e1 = square_name_to_idx("e1").unwrap();
    let moves = board.generate_moves();
    assert!(!moves
        .iter()
        .any(|m| m.from == e1 && (m.to == e1 + 2 || m.to + 2 == e1)));
}

#[test]
fn try_move_rejects_not_your_piece() {
    let mut board = Board::new();
    // an empty origin square
    assert_eq!(
        board.try_move(Move::from_str("e4e5").unwrap()),
        Err(InvalidMoveErr::NotYourPiece)
    );
    // an opponent piece
    assert_eq!(
        board.try_move(Move::from_str("e7e5").unwrap()),
        Err(InvalidMoveErr::NotYourPiece)
    );
}

#[test]
fn try_move_rejects_illegal_move() {
    let mut board = Board::new();
    assert_eq!(
        board.try_move(Move::from_str("e2e5").unwrap()),
        Err(InvalidMoveErr::IllegalMove)
    );
    // failed moves leave the position untouched
    assert_eq!(board, Board::new());
}

#[test]
fn promotion_requires_a_choice() {
    let mut board = Board::empty();
    board.load_fen("8/P6k/8/8/8/8/8/K7 w - - 0 1").unwrap();
    let a7 = square_name_to_idx("a7").unwrap();
    let a8 = square_name_to_idx("a8").unwrap();
    // the bare move is not among the generated moves, which carry the
    // four promotion variants instead
    assert_eq!(
        board.try_move(Move::from_idxs(a7, a8)),
        Err(InvalidMoveErr::IllegalMove)
    );
    let promotions: Vec<Move> = board
        .generate_moves()
        .into_iter()
        .filter(|m| m.from == a7 && m.to == a8)
        .collect();
    assert_eq!(promotions.len(), 4);
    assert!(promotions.iter().all(|m| m.promote.is_some()));
    let queen = promotions[3];
    board.try_move(queen).unwrap();
    let placed = board.piece_at_idx(a8);
    assert_eq!(
        placed.piece_type(),
        hourglass_engine::QUEEN,
        "promotion should place the chosen piece"
    );
}

#[test]
fn find_king_locates_kings() {
    let board = Board::new();
    assert_eq!(board.find_king(hourglass_engine::Player::White), 4);
    assert_eq!(board.find_king(hourglass_engine::Player::Black), 60);
}

#[test]
fn is_in_check_after_queen_attack() {
    let mut board = Board::empty();
    board.load_fen("4k3/8/8/8/8/8/4q3/4K3 w - - 0 1").unwrap();
    assert!(board.is_in_check(hourglass_engine::Player::White));
    assert!(!board.is_in_check(hourglass_engine::Player::Black));
}

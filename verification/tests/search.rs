use hourglass_engine::Board;
use hourglass_engine::MaterialScorer;
use hourglass_engine::Move;
use hourglass_engine::SCORE_INF;

fn perft(board: &Board, depth: u32) -> u64 {
    let moves = board.generate_moves();
    if depth <= 1 {
        return moves.len() as u64;
    }
    let mut total = 0;
    for m in moves {
        let mut next = *board;
        next.try_move(m).expect("a generated move should be legal");
        total += perft(&next, depth - 1);
    }
    total
}

#[test]
fn perft_depth_one() {
    assert_eq!(perft(&Board::new(), 1), 20);
}

#[test]
fn perft_depth_two() {
    assert_eq!(perft(&Board::new(), 2), 400);
}

#[test]
fn perft_depth_three() {
    assert_eq!(perft(&Board::new(), 3), 8902);
}

#[test]
fn perft_depth_four() {
    assert_eq!(perft(&Board::new(), 4), 197281);
}

#[test]
fn checkmate_searches_to_negative_infinity() {
    // a back-rank mate: White has no legal moves and stands in check
    let mut board = Board::empty();
    board.load_fen("6k1/8/8/8/8/8/5PPP/r5K1 w - - 0 1").unwrap();
    assert!(board.generate_moves().is_empty());
    assert!(board.is_in_check(hourglass_engine::Player::White));
    let (idx, score) = board.search(1, &MaterialScorer);
    assert_eq!(idx, 0);
    assert_eq!(score, -SCORE_INF);
}

#[test]
fn stalemate_searches_to_zero() {
    // Black has no legal moves and a safe king
    let mut board = Board::empty();
    board.load_fen("7k/5Q2/6K1/8/8/8/8/8 b - - 0 1").unwrap();
    assert!(board.generate_moves().is_empty());
    assert!(!board.is_in_check(hourglass_engine::Player::Black));
    let (idx, score) = board.search(1, &MaterialScorer);
    assert_eq!(idx, 0);
    assert_eq!(score, 0);
}

#[test]
fn depth_zero_returns_scorer_value() {
    // White is a rook and a pawn up: 5 + 1
    let mut board = Board::empty();
    board.load_fen("4k3/8/8/8/8/8/4P3/R3K3 w - - 0 1").unwrap();
    assert_eq!(board.score_material(), 6);
    let (idx, score) = board.search(0, &MaterialScorer);
    assert_eq!(idx, 0);
    assert_eq!(score, 6);
    // the same position from Black's perspective scores the negation
    let mut flipped = Board::empty();
    flipped.load_fen("4k3/8/8/8/8/8/4P3/R3K3 b - - 0 1").unwrap();
    assert_eq!(flipped.score_material(), -6);
}

#[test]
fn depth_one_takes_the_hanging_pawn() {
    let mut board = Board::empty();
    board.load_fen("k7/8/8/3p4/4P3/8/8/K7 w - - 0 1").unwrap();
    let best = board.get_best_move(1, &MaterialScorer).unwrap();
    let e4 = hourglass_engine::square_name_to_idx("e4").unwrap();
    let d5 = hourglass_engine::square_name_to_idx("d5").unwrap();
    assert_eq!(best, Move::from_idxs(e4, d5));
}

#[test]
fn get_best_move_none_without_legal_moves() {
    let mut board = Board::empty();
    board.load_fen("7k/5Q2/6K1/8/8/8/8/8 b - - 0 1").unwrap();
    assert_eq!(board.get_best_move(2, &MaterialScorer), None);
}

#[test]
fn bogo_score_stays_in_score_range() {
    let board = Board::new();
    for _ in 0..32 {
        let score = board.bogo_score();
        assert!(-SCORE_INF < score && score < SCORE_INF);
    }
}

#[test]
fn material_score_counts_both_sides() {
    assert_eq!(Board::new().score_material(), 0);
    let mut board = Board::empty();
    // White: queen 9 + knight 3; Black: rook 5 + two pawns 2
    board
        .load_fen("r3k3/pp6/8/8/8/8/8/QN2K3 w - - 0 1")
        .unwrap();
    assert_eq!(board.score_material(), 9 + 3 - 5 - 2);
    let mut black_to_move = Board::empty();
    black_to_move
        .load_fen("r3k3/pp6/8/8/8/8/8/QN2K3 b - - 0 1")
        .unwrap();
    assert_eq!(black_to_move.score_material(), -(9 + 3 - 5 - 2));
}

#[test]
fn piece_score_values() {
    let mut board = Board::empty();
    board.load_fen("4k3/8/8/8/8/8/8/QRBNP1K1 w - - 0 1").unwrap();
    let values: Vec<i32> = (0..5).map(|i| board.piece_at_idx(i).score_value()).collect();
    assert_eq!(values, vec![9, 5, 3, 3, 1]);
    assert_eq!(board.piece_at_idx(6).score_value(), 0);
    assert_eq!(board.piece_at_idx(60).score_value(), 0);
}

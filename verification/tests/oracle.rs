//! Cross-checks the move generator against an independent legal-move
//! generator, position by position over the opening tree.

use std::str::FromStr;

use hourglass_engine::Board;
use hourglass_engine::Move;
use hourglass_engine::Piece;
use hourglass_engine::{BISHOP, KNIGHT, QUEEN, ROOK, TYPE_MASK};

fn promotion_matches(mine: Option<Piece>, other: Option<chess::Piece>) -> bool {
    match (mine, other) {
        (None, None) => true,
        (Some(p), Some(c)) => {
            let kind = p.code & TYPE_MASK;
            match c {
                chess::Piece::Knight => kind == KNIGHT,
                chess::Piece::Bishop => kind == BISHOP,
                chess::Piece::Rook => kind == ROOK,
                chess::Piece::Queen => kind == QUEEN,
                _ => false,
            }
        }
        _ => false,
    }
}

fn move_matches(mine: &Move, other: &chess::ChessMove) -> bool {
    other.get_source().to_index() == mine.from
        && other.get_dest().to_index() == mine.to
        && promotion_matches(mine.promote, other.get_promotion())
}

fn compare_with_reference(board: &Board, depth: u32) {
    let fen = board.get_fen();
    let reference_board =
        chess::Board::from_str(&fen).expect("the engine produced an unreadable fen");
    let reference: Vec<chess::ChessMove> = chess::MoveGen::new_legal(&reference_board).collect();
    let my_moves = board.generate_moves();

    for mine in my_moves.iter() {
        assert!(
            reference.iter().any(|c| move_matches(mine, c)),
            "the engine invented a move {}{} in {}",
            hourglass_engine::idx_to_square_name(mine.from).unwrap(),
            hourglass_engine::idx_to_square_name(mine.to).unwrap(),
            fen,
        );
    }
    for c in reference.iter() {
        assert!(
            my_moves.iter().any(|mine| move_matches(mine, c)),
            "the engine missed the move {} in {}",
            c,
            fen,
        );
    }
    assert_eq!(my_moves.len(), reference.len(), "move count differs in {fen}");

    if depth > 1 {
        for mine in my_moves {
            let mut next = *board;
            next.try_move(mine).expect("a generated move should be legal");
            compare_with_reference(&next, depth - 1);
        }
    }
}

#[test]
fn test_board_moves() {
    compare_with_reference(&Board::new(), 5);
}

#[test]
fn cross_check_reference_tactical_positions() {
    let fens = [
        // castling on both wings, for both sides
        "r3k2r/8/8/8/8/8/8/R3K2R w KQkq - 0 1",
        "r3k2r/8/8/8/8/8/8/R3K2R b KQkq - 0 1",
        // an en-passant capture is available
        "rnbqkbnr/ppp1p1pp/8/3pPp2/8/8/PPPP1PPP/RNBQKBNR w KQkq f6 0 3",
        // promotions, with and without captures
        "1n2k3/P7/8/8/8/8/6p1/4K1N1 w - - 0 1",
        "1n2k3/P7/8/8/8/8/6p1/4K1N1 b - - 0 1",
        // a pinned piece may not expose its king
        "4k3/8/8/8/8/4r3/4N3/4K3 w - - 0 1",
        // the side to move stands in check
        "rnb1kbnr/pppp1ppp/8/4p3/6Pq/5P2/PPPPP2P/RNBQKBNR w KQkq - 1 3",
    ];
    for fen in fens {
        let mut board = Board::empty();
        board.load_fen(fen).unwrap();
        compare_with_reference(&board, 2);
    }
}

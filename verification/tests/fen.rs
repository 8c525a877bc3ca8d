use hourglass_engine::Board;
use hourglass_engine::FenParseErr;
use hourglass_engine::FenPart;
use hourglass_engine::Move;

const START_FEN: &str = "rnbqkbnr/pppppppp/8/8/8/8/PPPPPPPP/RNBQKBNR w KQkq - 0 1";

#[test]
fn start_position_writes_standard_fen() {
    assert_eq!(Board::new().get_fen(), START_FEN);
}

#[test]
fn loading_standard_fen_gives_start_position() {
    let mut board = Board::empty();
    board.load_fen(START_FEN).unwrap();
    assert_eq!(board, Board::new());
}

#[test]
fn fen_round_trip_start_position() {
    let board = Board::new();
    let mut reloaded = Board::empty();
    reloaded.load_fen(&board.get_fen()).unwrap();
    assert_eq!(reloaded, board);
}

#[test]
fn fen_round_trip_after_moves() {
    let mut board = Board::new();
    for text in ["e2e4", "c7c5", "g1f3", "d7d6", "f1b5", "c8d7", "e1g1"] {
        board.try_move(Move::from_str(text).unwrap()).unwrap();
    }
    let fen = board.get_fen();
    let mut reloaded = Board::empty();
    reloaded.load_fen(&fen).unwrap();
    assert_eq!(reloaded, board);
    assert_eq!(reloaded.get_fen(), fen);
}

#[test]
fn fen_round_trip_without_rights_or_target() {
    let fen = "8/5k2/8/8/8/8/3K4/8 b - - 7 42";
    let mut board = Board::empty();
    board.load_fen(fen).unwrap();
    assert_eq!(board.get_fen(), fen);
}

#[test]
fn load_fen_reports_missing_component() {
    let mut board = Board::empty();
    assert_eq!(
        board.load_fen("8/8/8/8/8/8/8/8 w -"),
        Err(FenParseErr::MissingComponent {
            part: FenPart::EnPassant
        })
    );
    assert_eq!(
        board.load_fen(""),
        Err(FenParseErr::MissingComponent {
            part: FenPart::ActiveColor
        })
    );
}

#[test]
fn load_fen_reports_too_many_components() {
    let mut board = Board::empty();
    assert_eq!(
        board.load_fen("8/8/8/8/8/8/8/8 w - - 0 1 extra"),
        Err(FenParseErr::TooManyComponents)
    );
}

#[test]
fn load_fen_rejects_unknown_piece_letter() {
    let mut board = Board::empty();
    match board.load_fen("8/8/8/3x4/8/8/8/8 w - - 0 1") {
        Err(FenParseErr::InvalidData {
            part: FenPart::Board,
            char_idx,
            ..
        }) => assert_eq!(char_idx, 7),
        other => panic!("expected invalid placement, got {other:?}"),
    }
}

#[test]
fn load_fen_rejects_overrunning_placement() {
    let mut board = Board::empty();
    match board.load_fen("8/8/8/8/8/8/8/8/8 w - - 0 1") {
        Err(FenParseErr::InvalidData {
            part: FenPart::Board,
            ..
        }) => {}
        other => panic!("expected overrun error, got {other:?}"),
    }
}

#[test]
fn load_fen_rejects_bad_active_color() {
    let mut board = Board::empty();
    match board.load_fen("8/8/8/8/8/8/8/8 x - - 0 1") {
        Err(FenParseErr::InvalidData {
            part: FenPart::ActiveColor,
            ..
        }) => {}
        other => panic!("expected active-color error, got {other:?}"),
    }
}

#[test]
fn load_fen_rejects_bad_castle_character() {
    let mut board = Board::empty();
    match board.load_fen("8/8/8/8/8/8/8/8 w Kx - 0 1") {
        Err(FenParseErr::InvalidData {
            part: FenPart::CastleRights,
            char_idx,
            ..
        }) => assert_eq!(char_idx, 1),
        other => panic!("expected castle error, got {other:?}"),
    }
}

#[test]
fn load_fen_rejects_bad_en_passant() {
    let mut board = Board::empty();
    match board.load_fen("8/8/8/8/8/8/8/8 w - z9 0 1") {
        Err(FenParseErr::InvalidData {
            part: FenPart::EnPassant,
            ..
        }) => {}
        other => panic!("expected en-passant error, got {other:?}"),
    }
}

#[test]
fn load_fen_rejects_bad_counters() {
    let mut board = Board::empty();
    match board.load_fen("8/8/8/8/8/8/8/8 w - - x 1") {
        Err(FenParseErr::InvalidData {
            part: FenPart::HalfMove,
            ..
        }) => {}
        other => panic!("expected halfmove error, got {other:?}"),
    }
    match board.load_fen("8/8/8/8/8/8/8/8 w - - 0 99999999999") {
        Err(FenParseErr::InvalidData {
            part: FenPart::FullMove,
            ..
        }) => {}
        other => panic!("expected fullmove error, got {other:?}"),
    }
}

#[test]
fn load_fen_failure_leaves_position_untouched() {
    let mut board = Board::new();
    let before = board;
    assert!(board.load_fen("8/8/8/3x4/8/8/8/8 w - - 0 1").is_err());
    assert_eq!(board, before);
}

#[test]
fn castle_rights_fen_text() {
    let mut board = Board::empty();
    board
        .load_fen("r3k2r/8/8/8/8/8/8/R3K2R w Kq - 3 9")
        .unwrap();
    assert_eq!(board.get_fen(), "r3k2r/8/8/8/8/8/8/R3K2R w Kq - 3 9");
    assert_eq!(board.castle_rights.to_fen(), "Kq");
    assert_eq!(hourglass_engine::CastleRights::none().to_fen(), "-");
}

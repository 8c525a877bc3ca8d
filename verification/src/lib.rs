//! A chess rules engine: board representation, legal-move generation
//! (castling, en passant, promotion), check detection, a FEN codec and a
//! brute-force negamax search, all with verified contracts.

mod ai;
mod board;
mod fen;
mod gen_attacks;
mod gen_moves;
mod geometry;
mod laws;
mod moves;
mod pieces;

pub use board::is_king_of;
pub use board::spec_apply;
pub use board::Board;
pub use board::BoardState;
pub use moves::InvalidMoveErr;
pub use moves::Move;

pub use pieces::lemma_has_color_iff;
pub use pieces::CastleRights;
pub use pieces::Piece;
pub use pieces::Player;
pub use pieces::BISHOP;
pub use pieces::BLACK;
pub use pieces::COLOR_MASK;
pub use pieces::KING;
pub use pieces::KNIGHT;
pub use pieces::PAWN;
pub use pieces::QUEEN;
pub use pieces::ROOK;
pub use pieces::TYPE_MASK;
pub use pieces::WHITE;

pub use geometry::get_rook_castle_pos;
pub use geometry::idx_to_square_name;
pub use geometry::lemma_ray_step;
pub use geometry::lemma_square_name_round_trip;
pub use geometry::square_name_to_idx;
pub use geometry::squares_to_edge;
pub use geometry::Direction;

pub use gen_attacks::spec_attacked;
pub use gen_attacks::spec_in_check;
pub use gen_attacks::spec_threatens;

pub use gen_moves::spec_keeps_king_safe;
pub use gen_moves::spec_legal_moves;
pub use gen_moves::spec_moves_for;

pub use fen::err_matches;
pub use fen::lemma_fen_round_trip;
pub use fen::spec_load_fen;
pub use fen::piece_from_fen;
pub use fen::spec_fen;
pub use fen::FenErr;
pub use fen::FenParseErr;
pub use fen::FenPart;

pub use ai::spec_score_material;
pub use ai::spec_search;
pub use ai::BogoScorer;
pub use ai::MaterialScorer;
pub use ai::ScoreFn;
pub use ai::SCORE_INF;
pub use gen_moves::lemma_apply_preserves_wf;
pub use gen_moves::lemma_legal_member;
pub use gen_moves::spec_move_props;

pub use laws::lemma_castle_excluded;
pub use laws::lemma_castle_rights_monotone;
pub use laws::lemma_en_passant_bookkeeping;
pub use laws::lemma_search_depth_one;
pub use laws::lemma_search_depth_zero;
pub use laws::lemma_terminal_scores;

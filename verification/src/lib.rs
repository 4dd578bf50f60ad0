//! A rules engine for standard chess: board representation, legal-move
//! generation, check/checkmate/stalemate detection, and the special moves
//! (castling, en passant, promotion), together with a thin turn-sequencing
//! wrapper above it.

pub mod board;
pub mod end_screen;
pub mod game;
pub mod piece;
pub mod rules;
pub mod square;

pub use board::Board;
pub use end_screen::ChessEndScreen;
pub use end_screen::GameResult;
pub use game::Game;
pub use game::MoveType;
pub use piece::Color;
pub use piece::Piece;
pub use piece::PieceType;
pub use square::Square;

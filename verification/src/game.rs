//! The turn-sequencing layer: one board, the active player, the current
//! selection, the last move and the move history. All legality checking
//! and state mutation is delegated to the board; callers are expected to
//! pass `execute_move` only destinations drawn from `get_valid_moves`.

use crate::board::{contains_coords, coords_of, Board};
use crate::piece::{glyph, Color, Piece, PieceType};
use crate::rules::{
    apply_move, checkmated, has_promotion_square, is_promotion_square, king_in_check,
    stalemated, starting_board, valid_move, valid_targets, BoardView,
};
use crate::square::{notation_seq, Square};
use vstd::prelude::*;

verus! {

pub enum MoveType {
    Move,
    Take,
    QueenSideCastle,
    KingSideCastle,
}

/// The value of a game: the board value plus the sequencing state.
#[verifier::ext_equal]
pub struct GameView {
    pub board: BoardView,
    pub active_player: Color,
    pub selected_square: Option<Square>,
    pub last_move: Option<(Square, Square)>,
    pub move_history: Seq<Seq<char>>,
}

/// The history entry recorded for a move: the mover's glyph, an 'x' on a
/// capture, the destination in algebraic notation, and '#' for checkmate
/// or '+' for check.
pub open spec fn move_entry(
    piece: Piece,
    capture: bool,
    to_r: int,
    to_f: int,
    mate: bool,
    check: bool,
) -> Seq<char> {
    glyph(piece) + (if capture {
        seq!['x']
    } else {
        Seq::<char>::empty()
    }) + notation_seq(to_r, to_f) + (if mate {
        seq!['#']
    } else if check {
        seq!['+']
    } else {
        Seq::<char>::empty()
    })
}

pub struct Game {
    board: Board,
    active_player: Color,
    selected_square: Option<Square>,
    last_move: Option<(Square, Square)>,
    move_history: Vec<String>,
}

impl View for Game {
    type V = GameView;

    closed spec fn view(&self) -> GameView {
        GameView {
            board: self.board@,
            active_player: self.active_player,
            selected_square: self.selected_square,
            last_move: self.last_move,
            move_history: self.move_history.deep_view(),
        }
    }
}

impl Game {
    /// A fresh game: the standard starting position, White to move, and
    /// no selection, last move or history.
    pub fn new() -> (r: Self)
        ensures
            starting_board(r@.board),
            r@.active_player == Color::White,
            r@.selected_square is None,
            r@.last_move is None,
            r@.move_history == Seq::<Seq<char>>::empty(),
    {
        let r = Self {
            board: Board::new_starting_default(),
            active_player: Color::White,
            selected_square: None,
            last_move: None,
            move_history: Vec::new(),
        };
        proof {
            assert(r@.move_history =~~= Seq::<Seq<char>>::empty());
        }
        r
    }

    /// Get the board reference
    pub fn board(&self) -> (r: &Board)
        ensures
            r@ == self@.board,
    {
        &self.board
    }

    /// Get the currently selected square
    pub fn selected_square(&self) -> (r: Option<Square>)
        ensures
            r == self@.selected_square,
    {
        self.selected_square
    }

    /// Set the selected square
    pub fn set_selected_square(&mut self, square: Option<Square>)
        ensures
            final(self)@ == (GameView { selected_square: square, ..old(self)@ }),
    {
        self.selected_square = square;
        proof {
            assert(self@ =~~= (GameView { selected_square: square, ..old(self)@ }));
        }
    }

    /// Get the last move made
    pub fn last_move(&self) -> (r: Option<(Square, Square)>)
        ensures
            r == self@.last_move,
    {
        self.last_move
    }

    /// Get the move history
    pub fn move_history(&self) -> (r: &Vec<String>)
        ensures
            r.deep_view() == self@.move_history,
    {
        &self.move_history
    }

    /// Get valid moves for the piece on a square
    pub fn get_valid_moves(&self, square: Square) -> (valid_moves: Vec<Square>)
        ensures
            forall|idx: int|
                0 <= idx < valid_moves@.len() ==> valid_move(
                    self@.board,
                    square.spec_rank(),
                    square.spec_file(),
                    (#[trigger] valid_moves@[idx]).spec_rank(),
                    valid_moves@[idx].spec_file(),
                ),
            forall|tr: int, tf: int|
                #[trigger] valid_move(self@.board, square.spec_rank(), square.spec_file(), tr, tf)
                    ==> contains_coords(valid_moves@, tr, tf),
            coords_of(valid_moves@) == valid_targets(
                self@.board,
                square.spec_rank(),
                square.spec_file(),
            ),
    {
        self.board.get_valid_moves(square)
    }

    /// Get piece at a specific square
    pub fn get_piece(&self, square: Square) -> (r: Option<Piece>)
        ensures
            r == self@.board.at(square.spec_rank(), square.spec_file()),
    {
        self.board.get_piece(square)
    }

    /// Apply a move from one square to another, record it in the history
    /// with the mover's glyph, capture mark and check or checkmate mark,
    /// remember it as the last move, and flip the active player. The move
    /// is applied mechanically: legality is the caller's burden. An empty
    /// source square is a no-op.
    pub fn execute_move(&mut self, from: Square, to: Square)
        ensures
            old(self)@.board.at(from.spec_rank(), from.spec_file()) is None ==> final(self)@ == old(
                self,
            )@,
            (old(self)@.board.at(from.spec_rank(), from.spec_file()) matches Some(piece) ==> {
                let next_board = apply_move(
                    old(self)@.board,
                    from.spec_rank(),
                    from.spec_file(),
                    to.spec_rank(),
                    to.spec_file(),
                );
                let opponent = old(self)@.active_player.spec_opposite();
                let capture = old(self)@.board.at(to.spec_rank(), to.spec_file()) is Some;
                let mate = checkmated(next_board, opponent);
                let check = !mate && king_in_check(next_board, opponent);
                &&& final(self)@.board == next_board
                &&& final(self)@.active_player == opponent
                &&& final(self)@.selected_square == old(self)@.selected_square
                &&& final(self)@.last_move == Some((from, to))
                &&& final(self)@.move_history == old(self)@.move_history.push(
                    move_entry(piece, capture, to.spec_rank(), to.spec_file(), mate, check),
                )
            }),
    {
        // Move the piece
        if let Some(piece) = self.board.get_piece(from) {
            // Check if it's a capture before making the move
            let is_capture = self.board.get_piece(to).is_some();

            self.board.make_move(from, to);

            // Check for check and checkmate after the move
            let opponent_color = self.active_player.opposite();
            let is_checkmate = self.board.is_checkmated(opponent_color);
            let is_check = !is_checkmate && self.board.is_king_in_check(opponent_color);

            // Record move in history with proper notation
            let move_notation = to.to_notation();
            let piece_symbol = piece.get_piece_ascii();

            // Build move string: [symbol] [capture?] [square] [check/checkmate?]
            let mut move_str = String::new();

            // Add piece symbol
            move_str.append(piece_symbol.as_str());

            // Add capture notation
            if is_capture {
                move_str.append("x");
            }

            // Add square
            move_str.append(move_notation.as_str());

            // Add check or checkmate notation
            if is_checkmate {
                move_str.append("#");
            } else if is_check {
                move_str.append("+");
            }

            proof {
                reveal_strlit("x");
                reveal_strlit("#");
                reveal_strlit("+");
                assert(move_str@ =~= move_entry(
                    piece,
                    is_capture,
                    to.spec_rank(),
                    to.spec_file(),
                    is_checkmate,
                    is_check,
                ));
            }
            let ghost history0 = self.move_history.deep_view();
            self.move_history.push(move_str);

            // Update last move highlight
            self.last_move = Some((from, to));

            // Switch active player
            self.active_player = self.active_player.opposite();

            proof {
                assert(self.move_history.deep_view() =~~= history0.push(move_str@));
            }
        }
    }

    pub fn is_checkmated(&self, color: Color) -> (r: bool)
        ensures
            r == checkmated(self@.board, color),
    {
        self.board.is_checkmated(color)
    }

    pub fn is_stalemate(&self, color: Color) -> (r: bool)
        ensures
            r == stalemated(self@.board, color),
    {
        self.board.is_stalemate(color)
    }

    /// Get the active player
    pub fn active_player(&self) -> (r: Color)
        ensures
            r == self@.active_player,
    {
        self.active_player
    }

    /// Reset the game to the starting position, White to move, with the
    /// selection, last move and history all cleared.
    pub fn reset(&mut self)
        ensures
            starting_board(final(self)@.board),
            final(self)@.active_player == Color::White,
            final(self)@.selected_square is None,
            final(self)@.last_move is None,
            final(self)@.move_history == Seq::<Seq<char>>::empty(),
    {
        self.board = Board::new_starting_default();
        self.active_player = Color::White;
        self.selected_square = None;
        self.last_move = None;
        self.move_history.clear();
        proof {
            assert(self@.move_history =~~= Seq::<Seq<char>>::empty());
        }
    }

    /// Get the square that needs promotion, if any
    pub fn get_promotion_square(&self) -> (r: Option<Square>)
        ensures
            match r {
                Some(s) => is_promotion_square(self@.board, s.spec_rank(), s.spec_file()),
                None => !has_promotion_square(self@.board),
            },
    {
        self.board.get_promotion_square()
    }

    /// Promote the pawn on the given square to a new piece type in place,
    /// preserving its color; an empty square is a no-op.
    pub fn promote_square(&mut self, square: Square, piece_type: PieceType)
        ensures
            final(self)@.board == match old(self)@.board.at(square.spec_rank(), square.spec_file()) {
                Some(p) => old(self)@.board.set_at(
                    square.spec_rank(),
                    square.spec_file(),
                    Some(Piece { color: p.color, piece_type: piece_type }),
                ),
                None => old(self)@.board,
            },
            final(self)@.active_player == old(self)@.active_player,
            final(self)@.selected_square == old(self)@.selected_square,
            final(self)@.last_move == old(self)@.last_move,
            final(self)@.move_history == old(self)@.move_history,
    {
        self.board.promote_square(square, piece_type);
    }
}

} // verus!

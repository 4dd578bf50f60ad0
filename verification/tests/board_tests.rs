use chess_core::{Board, Color, Piece, PieceType, Square};

fn sq(notation: &str) -> Square {
    Square::new_from_notation(notation).unwrap()
}

fn put(board: &mut Board, notation: &str, color: Color, piece_type: PieceType) {
    board.set_piece(sq(notation), Some(Piece::new(color, piece_type)));
}

fn count_pieces(board: &Board, color: Color, piece_type: PieceType) -> usize {
    let mut count = 0;
    for rank in 0..8 {
        for file in 0..8 {
            if let Some(piece) = board.get_piece(Square::new(rank, file).unwrap()) {
                if piece.color == color && piece.piece_type == piece_type {
                    count += 1;
                }
            }
        }
    }
    count
}

#[test]
fn starting_position_has_the_full_armies() {
    let board = Board::new_starting_default();
    for color in [Color::White, Color::Black] {
        assert_eq!(count_pieces(&board, color, PieceType::Pawn), 8);
        assert_eq!(count_pieces(&board, color, PieceType::Rook), 2);
        assert_eq!(count_pieces(&board, color, PieceType::Knight), 2);
        assert_eq!(count_pieces(&board, color, PieceType::Bishop), 2);
        assert_eq!(count_pieces(&board, color, PieceType::Queen), 1);
        assert_eq!(count_pieces(&board, color, PieceType::King), 1);
    }
}

#[test]
fn starting_position_pieces_stand_on_their_squares() {
    let board = Board::new_starting_default();
    assert_eq!(board.get_piece(sq("e1")), Some(Piece::new(Color::White, PieceType::King)));
    assert_eq!(board.get_piece(sq("d1")), Some(Piece::new(Color::White, PieceType::Queen)));
    assert_eq!(board.get_piece(sq("a1")), Some(Piece::new(Color::White, PieceType::Rook)));
    assert_eq!(board.get_piece(sq("h1")), Some(Piece::new(Color::White, PieceType::Rook)));
    assert_eq!(board.get_piece(sq("b1")), Some(Piece::new(Color::White, PieceType::Knight)));
    assert_eq!(board.get_piece(sq("c1")), Some(Piece::new(Color::White, PieceType::Bishop)));
    assert_eq!(board.get_piece(sq("e2")), Some(Piece::new(Color::White, PieceType::Pawn)));
    assert_eq!(board.get_piece(sq("e8")), Some(Piece::new(Color::Black, PieceType::King)));
    assert_eq!(board.get_piece(sq("d8")), Some(Piece::new(Color::Black, PieceType::Queen)));
    assert_eq!(board.get_piece(sq("a8")), Some(Piece::new(Color::Black, PieceType::Rook)));
    assert_eq!(board.get_piece(sq("g8")), Some(Piece::new(Color::Black, PieceType::Knight)));
    assert_eq!(board.get_piece(sq("f8")), Some(Piece::new(Color::Black, PieceType::Bishop)));
    assert_eq!(board.get_piece(sq("d7")), Some(Piece::new(Color::Black, PieceType::Pawn)));
    assert_eq!(board.get_piece(sq("e4")), None);
}

#[test]
fn opening_moves_of_knight_and_pawn() {
    let board = Board::new_starting_default();
    let knight_moves = board.get_valid_moves(sq("b1"));
    assert_eq!(knight_moves.len(), 2);
    assert!(knight_moves.contains(&sq("a3")));
    assert!(knight_moves.contains(&sq("c3")));

    let pawn_moves = board.get_valid_moves(sq("e2"));
    assert_eq!(pawn_moves.len(), 2);
    assert!(pawn_moves.contains(&sq("e3")));
    assert!(pawn_moves.contains(&sq("e4")));

    // the back pieces behind the pawns cannot move yet
    assert!(board.get_valid_moves(sq("c1")).is_empty());
    assert!(board.get_valid_moves(sq("d1")).is_empty());
    assert!(board.get_valid_moves(sq("e1")).is_empty());
}

#[test]
fn every_valid_move_leaves_the_own_king_out_of_check() {
    let board = Board::new_starting_default();
    for rank in 0..8 {
        for file in 0..8 {
            let from = Square::new(rank, file).unwrap();
            if let Some(piece) = board.get_piece(from) {
                for to in board.get_valid_moves(from) {
                    let mut simulated = board.clone();
                    simulated.make_move(from, to);
                    assert!(!simulated.is_king_in_check(piece.color));
                }
            }
        }
    }
}

#[test]
fn a_pinned_piece_may_not_expose_its_king() {
    let mut board = Board::new();
    put(&mut board, "e1", Color::White, PieceType::King);
    put(&mut board, "e4", Color::White, PieceType::Rook);
    put(&mut board, "e8", Color::Black, PieceType::Rook);
    put(&mut board, "a8", Color::Black, PieceType::King);

    // the white rook is pinned to the e-file: it may slide along it only
    let moves = board.get_valid_moves(sq("e4"));
    assert!(moves.contains(&sq("e2")));
    assert!(moves.contains(&sq("e8")));
    assert!(!moves.contains(&sq("a4")));
    assert!(!moves.contains(&sq("d4")));
}

#[test]
fn queen_moves_on_an_open_board() {
    let mut board = Board::new();
    put(&mut board, "d4", Color::White, PieceType::Queen);
    put(&mut board, "h8", Color::White, PieceType::King);
    put(&mut board, "a8", Color::Black, PieceType::King);

    let moves = board.get_valid_moves(sq("d4"));
    // 27 open-board queen destinations, minus h8 where her own king stands
    assert_eq!(moves.len(), 26);
    for target in ["d1", "d8", "a4", "h4", "a1", "g7", "a7", "e4", "c3"] {
        assert!(moves.contains(&sq(target)), "missing {target}");
    }
    assert!(!moves.contains(&sq("h8")));
}

#[test]
fn a_cornered_knight_has_two_jumps() {
    let mut board = Board::new();
    put(&mut board, "a1", Color::White, PieceType::Knight);
    put(&mut board, "h1", Color::White, PieceType::King);
    put(&mut board, "h8", Color::Black, PieceType::King);

    let moves = board.get_valid_moves(sq("a1"));
    assert_eq!(moves.len(), 2);
    assert!(moves.contains(&sq("b3")));
    assert!(moves.contains(&sq("c2")));
}

#[test]
fn make_move_from_an_empty_square_changes_nothing() {
    let mut board = Board::new_starting_default();
    let before = board.get_valid_moves(sq("e2"));
    board.make_move(sq("e4"), sq("e5"));
    assert_eq!(board.get_piece(sq("e5")), None);
    assert_eq!(board.get_valid_moves(sq("e2")), before);
}

#[test]
fn a_board_without_the_king_counts_as_in_check() {
    let board = Board::new();
    assert!(board.is_king_in_check(Color::White));
    assert!(board.is_king_in_check(Color::Black));
}

#[test]
fn rook_attacks_are_blocked_by_interposed_pieces() {
    let mut board = Board::new();
    put(&mut board, "e1", Color::White, PieceType::King);
    put(&mut board, "e8", Color::Black, PieceType::Rook);
    put(&mut board, "a8", Color::Black, PieceType::King);
    assert!(board.is_king_in_check(Color::White));

    put(&mut board, "e5", Color::White, PieceType::Bishop);
    assert!(!board.is_king_in_check(Color::White));
}

#[test]
fn king_side_castle_available_with_clear_and_safe_path() {
    let mut board = Board::new();
    put(&mut board, "e1", Color::White, PieceType::King);
    put(&mut board, "h1", Color::White, PieceType::Rook);
    put(&mut board, "e8", Color::Black, PieceType::King);

    let moves = board.get_valid_moves(sq("e1"));
    assert!(moves.contains(&sq("g1")));

    board.make_move(sq("e1"), sq("g1"));
    assert_eq!(board.get_piece(sq("g1")), Some(Piece::new(Color::White, PieceType::King)));
    assert_eq!(board.get_piece(sq("f1")), Some(Piece::new(Color::White, PieceType::Rook)));
    assert_eq!(board.get_piece(sq("e1")), None);
    assert_eq!(board.get_piece(sq("h1")), None);
}

#[test]
fn queen_side_castle_moves_king_and_rook_together() {
    let mut board = Board::new();
    put(&mut board, "e1", Color::White, PieceType::King);
    put(&mut board, "a1", Color::White, PieceType::Rook);
    put(&mut board, "e8", Color::Black, PieceType::King);

    let moves = board.get_valid_moves(sq("e1"));
    assert!(moves.contains(&sq("c1")));

    board.make_move(sq("e1"), sq("c1"));
    assert_eq!(board.get_piece(sq("c1")), Some(Piece::new(Color::White, PieceType::King)));
    assert_eq!(board.get_piece(sq("d1")), Some(Piece::new(Color::White, PieceType::Rook)));
    assert_eq!(board.get_piece(sq("a1")), None);
}

#[test]
fn castle_unavailable_when_a_piece_stands_between() {
    let mut board = Board::new();
    put(&mut board, "e1", Color::White, PieceType::King);
    put(&mut board, "h1", Color::White, PieceType::Rook);
    put(&mut board, "f1", Color::White, PieceType::Bishop);
    put(&mut board, "e8", Color::Black, PieceType::King);
    assert!(!board.get_valid_moves(sq("e1")).contains(&sq("g1")));
}

#[test]
fn castle_unavailable_while_the_king_is_in_check() {
    let mut board = Board::new();
    put(&mut board, "e1", Color::White, PieceType::King);
    put(&mut board, "h1", Color::White, PieceType::Rook);
    put(&mut board, "e8", Color::Black, PieceType::King);
    put(&mut board, "e5", Color::Black, PieceType::Rook);
    assert!(!board.get_valid_moves(sq("e1")).contains(&sq("g1")));
}

#[test]
fn castling_through_check_is_excluded() {
    let mut board = Board::new();
    put(&mut board, "e1", Color::White, PieceType::King);
    put(&mut board, "h1", Color::White, PieceType::Rook);
    put(&mut board, "e8", Color::Black, PieceType::King);
    // the rook bears on the empty f1 the king would cross
    put(&mut board, "f8", Color::Black, PieceType::Rook);
    assert!(!board.get_valid_moves(sq("e1")).contains(&sq("g1")));
}

#[test]
fn queen_side_castling_through_check_is_excluded() {
    let mut board = Board::new();
    put(&mut board, "e1", Color::White, PieceType::King);
    put(&mut board, "a1", Color::White, PieceType::Rook);
    put(&mut board, "e8", Color::Black, PieceType::King);
    // the rook bears on the empty d1 the king would cross
    put(&mut board, "d8", Color::Black, PieceType::Rook);
    assert!(!board.get_valid_moves(sq("e1")).contains(&sq("c1")));
}

#[test]
fn queen_side_castle_ignores_an_attack_on_b1_alone() {
    let mut board = Board::new();
    put(&mut board, "e1", Color::White, PieceType::King);
    put(&mut board, "a1", Color::White, PieceType::Rook);
    put(&mut board, "e8", Color::Black, PieceType::King);
    // b1 is crossed by the rook only, not by the king, so an attack
    // there does not bar the castle
    put(&mut board, "b8", Color::Black, PieceType::Rook);
    assert!(board.get_valid_moves(sq("e1")).contains(&sq("c1")));
}

#[test]
fn castle_right_is_spent_once_the_king_has_moved() {
    let mut board = Board::new();
    put(&mut board, "e1", Color::White, PieceType::King);
    put(&mut board, "h1", Color::White, PieceType::Rook);
    put(&mut board, "e8", Color::Black, PieceType::King);

    board.make_move(sq("e1"), sq("e2"));
    board.make_move(sq("e2"), sq("e1"));
    assert!(!board.get_valid_moves(sq("e1")).contains(&sq("g1")));
}

#[test]
fn castle_right_is_spent_once_the_rook_has_moved() {
    let mut board = Board::new();
    put(&mut board, "e1", Color::White, PieceType::King);
    put(&mut board, "h1", Color::White, PieceType::Rook);
    put(&mut board, "e8", Color::Black, PieceType::King);

    board.make_move(sq("h1"), sq("h5"));
    board.make_move(sq("h5"), sq("h1"));
    assert!(!board.get_valid_moves(sq("e1")).contains(&sq("g1")));
}

#[test]
fn castling_into_check_is_filtered_out() {
    let mut board = Board::new();
    put(&mut board, "e1", Color::White, PieceType::King);
    put(&mut board, "h1", Color::White, PieceType::Rook);
    put(&mut board, "e8", Color::Black, PieceType::King);
    put(&mut board, "g8", Color::Black, PieceType::Rook);
    assert!(!board.get_valid_moves(sq("e1")).contains(&sq("g1")));
}

#[test]
fn stalemate_is_not_checkmate() {
    // Black king cornered on a8 by the white queen on b6: no check and no move.
    let mut board = Board::new();
    put(&mut board, "b8", Color::Black, PieceType::King);
    // walking the king into the corner revokes Black's castling rights
    board.make_move(sq("b8"), sq("a8"));
    put(&mut board, "b6", Color::White, PieceType::Queen);
    put(&mut board, "c1", Color::White, PieceType::King);

    assert!(!board.is_checkmated(Color::Black));
    assert!(board.is_stalemate(Color::Black));
    assert!(!board.is_stalemate(Color::White));
}

#[test]
fn back_rank_mate_is_checkmate() {
    let mut board = Board::new();
    put(&mut board, "h8", Color::Black, PieceType::King);
    put(&mut board, "g7", Color::Black, PieceType::Pawn);
    put(&mut board, "h7", Color::Black, PieceType::Pawn);
    put(&mut board, "a8", Color::White, PieceType::Rook);
    put(&mut board, "c1", Color::White, PieceType::King);

    assert!(board.is_checkmated(Color::Black));
    assert!(!board.is_stalemate(Color::Black));
}

#[test]
fn a_pawn_on_the_last_rank_is_reported_for_promotion() {
    let mut board = Board::new();
    put(&mut board, "e1", Color::White, PieceType::King);
    put(&mut board, "e8", Color::Black, PieceType::King);
    put(&mut board, "a7", Color::White, PieceType::Pawn);
    assert_eq!(board.get_promotion_square(), None);

    board.make_move(sq("a7"), sq("a8"));
    assert_eq!(board.get_promotion_square(), Some(sq("a8")));
}

#[test]
fn promotion_replaces_the_type_in_place_and_keeps_the_color() {
    let mut board = Board::new();
    put(&mut board, "e1", Color::White, PieceType::King);
    put(&mut board, "e8", Color::Black, PieceType::King);
    put(&mut board, "c8", Color::White, PieceType::Pawn);

    assert_eq!(board.get_promotion_square(), Some(sq("c8")));
    board.promote_square(sq("c8"), PieceType::Queen);
    assert_eq!(board.get_piece(sq("c8")), Some(Piece::new(Color::White, PieceType::Queen)));
    assert_eq!(board.get_promotion_square(), None);
}

#[test]
fn a_black_pawn_promotes_on_rank_one() {
    let mut board = Board::new();
    put(&mut board, "e1", Color::White, PieceType::King);
    put(&mut board, "e8", Color::Black, PieceType::King);
    put(&mut board, "h1", Color::Black, PieceType::Pawn);
    assert_eq!(board.get_promotion_square(), Some(sq("h1")));
    board.promote_square(sq("h1"), PieceType::Knight);
    assert_eq!(board.get_piece(sq("h1")), Some(Piece::new(Color::Black, PieceType::Knight)));
}

#[test]
fn promoting_an_empty_square_changes_nothing() {
    let mut board = Board::new_starting_default();
    board.promote_square(sq("e4"), PieceType::Queen);
    assert_eq!(board.get_piece(sq("e4")), None);
}

use chess_core::{Color, Game, Piece, PieceType, Square};

fn sq(notation: &str) -> Square {
    Square::new_from_notation(notation).unwrap()
}

fn play(game: &mut Game, from: &str, to: &str) {
    game.execute_move(sq(from), sq(to));
}

#[test]
fn a_new_game_starts_with_white_and_a_clean_slate() {
    let game = Game::new();
    assert_eq!(game.active_player(), Color::White);
    assert_eq!(game.selected_square(), None);
    assert_eq!(game.last_move(), None);
    assert!(game.move_history().is_empty());
    assert_eq!(game.get_piece(sq("e1")), Some(Piece::new(Color::White, PieceType::King)));
}

#[test]
fn execute_move_flips_the_active_player_and_records_the_move() {
    let mut game = Game::new();
    play(&mut game, "e2", "e4");
    assert_eq!(game.active_player(), Color::Black);
    assert_eq!(game.last_move(), Some((sq("e2"), sq("e4"))));
    assert_eq!(game.get_piece(sq("e4")), Some(Piece::new(Color::White, PieceType::Pawn)));
    assert_eq!(game.get_piece(sq("e2")), None);
    assert_eq!(game.move_history(), &vec!["\u{2659}e4".to_string()]);
}

#[test]
fn execute_move_from_an_empty_square_is_ignored() {
    let mut game = Game::new();
    play(&mut game, "e4", "e5");
    assert_eq!(game.active_player(), Color::White);
    assert_eq!(game.last_move(), None);
    assert!(game.move_history().is_empty());
}

#[test]
fn a_capture_is_recorded_with_an_x() {
    let mut game = Game::new();
    play(&mut game, "e2", "e4");
    play(&mut game, "d7", "d5");
    play(&mut game, "e4", "d5");
    assert_eq!(game.get_piece(sq("d5")), Some(Piece::new(Color::White, PieceType::Pawn)));
    assert_eq!(game.move_history().last().unwrap(), "\u{2659}xd5");
}

#[test]
fn a_checking_move_is_recorded_with_a_plus() {
    let mut game = Game::new();
    play(&mut game, "e2", "e4");
    play(&mut game, "f7", "f6");
    play(&mut game, "d1", "h5");
    assert!(game.board().is_king_in_check(Color::Black));
    assert_eq!(game.move_history().last().unwrap(), "\u{2655}h5+");
}

#[test]
fn en_passant_capture_removes_the_passed_pawn() {
    let mut game = Game::new();
    play(&mut game, "e2", "e4");
    play(&mut game, "a7", "a6");
    play(&mut game, "e4", "e5");
    play(&mut game, "d7", "d5");

    let moves = game.get_valid_moves(sq("e5"));
    assert!(moves.contains(&sq("d6")));

    play(&mut game, "e5", "d6");
    assert_eq!(game.get_piece(sq("d6")), Some(Piece::new(Color::White, PieceType::Pawn)));
    assert_eq!(game.get_piece(sq("d5")), None);
    assert_eq!(game.get_piece(sq("e5")), None);
}

#[test]
fn the_en_passant_window_lasts_one_ply_only() {
    let mut game = Game::new();
    play(&mut game, "e2", "e4");
    play(&mut game, "a7", "a6");
    play(&mut game, "e4", "e5");
    play(&mut game, "d7", "d5");
    // White declines; the window closes.
    play(&mut game, "h2", "h3");
    play(&mut game, "a6", "a5");
    assert!(!game.get_valid_moves(sq("e5")).contains(&sq("d6")));
}

#[test]
fn fools_mate_is_checkmate() {
    let mut game = Game::new();
    play(&mut game, "f2", "f3");
    play(&mut game, "e7", "e5");
    play(&mut game, "g2", "g4");
    play(&mut game, "d8", "h4");

    assert!(game.is_checkmated(Color::White));
    assert!(!game.is_stalemate(Color::White));
    assert!(game.move_history().last().unwrap().ends_with('#'));

    // every White piece is out of moves
    for rank in 0..8 {
        for file in 0..8 {
            let square = Square::new(rank, file).unwrap();
            if let Some(piece) = game.get_piece(square) {
                if piece.color == Color::White {
                    assert!(game.get_valid_moves(square).is_empty());
                }
            }
        }
    }
}

#[test]
fn scholars_mate_is_checkmate_for_black() {
    let mut game = Game::new();
    play(&mut game, "e2", "e4");
    play(&mut game, "e7", "e5");
    play(&mut game, "f1", "c4");
    play(&mut game, "b8", "c6");
    play(&mut game, "d1", "h5");
    play(&mut game, "g8", "f6");
    play(&mut game, "h5", "f7");

    assert!(game.is_checkmated(Color::Black));
    assert!(game.move_history().last().unwrap().ends_with('#'));
}

#[test]
fn selection_is_presentation_state_only() {
    let mut game = Game::new();
    game.set_selected_square(Some(sq("e2")));
    assert_eq!(game.selected_square(), Some(sq("e2")));
    game.set_selected_square(None);
    assert_eq!(game.selected_square(), None);
}

#[test]
fn reset_restores_the_starting_state_atomically() {
    let mut game = Game::new();
    play(&mut game, "e2", "e4");
    play(&mut game, "e7", "e5");
    game.set_selected_square(Some(sq("e4")));

    game.reset();
    assert_eq!(game.active_player(), Color::White);
    assert_eq!(game.selected_square(), None);
    assert_eq!(game.last_move(), None);
    assert!(game.move_history().is_empty());
    assert_eq!(game.get_piece(sq("e2")), Some(Piece::new(Color::White, PieceType::Pawn)));
    assert_eq!(game.get_piece(sq("e4")), None);
}

#[test]
fn the_promotion_handshake_through_the_game() {
    let mut game = Game::new();
    // walk the a-pawn to promotion, capturing through the rook
    play(&mut game, "a2", "a4");
    play(&mut game, "h7", "h6");
    play(&mut game, "a4", "a5");
    play(&mut game, "h6", "h5");
    play(&mut game, "a5", "a6");
    play(&mut game, "h5", "h4");
    play(&mut game, "a6", "b7");
    play(&mut game, "h4", "h3");
    play(&mut game, "b7", "a8");

    let promotion = game.get_promotion_square();
    assert_eq!(promotion, Some(sq("a8")));

    game.promote_square(sq("a8"), PieceType::Queen);
    assert_eq!(game.get_piece(sq("a8")), Some(Piece::new(Color::White, PieceType::Queen)));
    assert_eq!(game.get_promotion_square(), None);
}

#[test]
fn move_history_grows_in_order() {
    let mut game = Game::new();
    play(&mut game, "e2", "e4");
    play(&mut game, "e7", "e5");
    play(&mut game, "g1", "f3");
    let history = game.move_history();
    assert_eq!(history.len(), 3);
    assert_eq!(history[0], "\u{2659}e4");
    assert_eq!(history[1], "\u{265F}e5");
    assert_eq!(history[2], "\u{2658}f3");
}

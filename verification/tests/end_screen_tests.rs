use chess_core::{ChessEndScreen, Color, GameResult};

#[test]
fn game_results_carry_the_winner() {
    let result = GameResult::Checkmate(Color::White);
    assert!(matches!(result, GameResult::Checkmate(Color::White)));
    let copied = result;
    assert!(matches!(copied, GameResult::Checkmate(_)));
    assert!(matches!(GameResult::Stalemate, GameResult::Stalemate));
    assert!(matches!(GameResult::Draw, GameResult::Draw));
}

#[test]
fn the_end_screen_state_resets() {
    let mut screen = ChessEndScreen::new();
    screen.reset();
    let _fresh = ChessEndScreen::new();
}

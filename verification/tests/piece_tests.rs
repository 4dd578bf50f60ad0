use chess_core::{Color, Piece, PieceType};

#[test]
fn opposite_swaps_the_colors() {
    assert_eq!(Color::White.opposite(), Color::Black);
    assert_eq!(Color::Black.opposite(), Color::White);
}

#[test]
fn opposite_color_of_a_piece() {
    assert_eq!(Piece::new(Color::White, PieceType::Rook).opposite_color(), Color::Black);
    assert_eq!(Piece::new(Color::Black, PieceType::Pawn).opposite_color(), Color::White);
}

#[test]
fn offset_tables_have_the_expected_shapes() {
    assert_eq!(PieceType::Pawn.get_offsets().len(), 0);
    assert_eq!(PieceType::Knight.get_offsets().len(), 8);
    assert_eq!(PieceType::Bishop.get_offsets().len(), 4);
    assert_eq!(PieceType::Rook.get_offsets().len(), 4);
    assert_eq!(PieceType::Queen.get_offsets().len(), 8);
    assert_eq!(PieceType::King.get_offsets().len(), 8);
    assert!(PieceType::Knight.get_offsets().contains(&(-2, 1)));
    assert!(PieceType::Rook.get_offsets().contains(&(0, -1)));
    assert!(PieceType::Bishop.get_offsets().contains(&(1, 1)));
}

#[test]
fn glyphs_are_the_unicode_chess_symbols() {
    assert_eq!(Piece::new(Color::White, PieceType::King).get_piece_ascii(), "\u{2654}");
    assert_eq!(Piece::new(Color::White, PieceType::Pawn).get_piece_ascii(), "\u{2659}");
    assert_eq!(Piece::new(Color::Black, PieceType::King).get_piece_ascii(), "\u{265A}");
    assert_eq!(Piece::new(Color::Black, PieceType::Queen).get_piece_ascii(), "\u{265B}");
}

#[test]
fn promote_to_changes_the_type_and_keeps_the_color() {
    let mut piece = Piece::new(Color::White, PieceType::Pawn);
    piece.promote_to(PieceType::Queen);
    assert_eq!(piece.piece_type, PieceType::Queen);
    assert_eq!(piece.color, Color::White);
}

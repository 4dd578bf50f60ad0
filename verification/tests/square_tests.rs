use chess_core::Square;

fn sq(notation: &str) -> Square {
    Square::new_from_notation(notation).unwrap()
}

#[test]
fn new_accepts_board_coordinates_only() {
    assert!(Square::new(0, 0).is_ok());
    assert!(Square::new(7, 7).is_ok());
    assert!(Square::new(8, 0).is_err());
    assert!(Square::new(0, 8).is_err());
    assert!(Square::new(255, 255).is_err());
}

#[test]
fn notation_of_known_squares() {
    assert_eq!(Square::new(0, 0).unwrap().to_notation(), "a1");
    assert_eq!(Square::new(3, 4).unwrap().to_notation(), "e4");
    assert_eq!(Square::new(7, 7).unwrap().to_notation(), "h8");
}

#[test]
fn parse_notation_of_known_squares() {
    assert_eq!(sq("a1").rank_file(), (0, 0));
    assert_eq!(sq("e4").rank_file(), (3, 4));
    assert_eq!(sq("h8").rank_file(), (7, 7));
}

#[test]
fn parse_notation_is_case_insensitive_in_the_file_letter() {
    assert_eq!(sq("E4"), sq("e4"));
    assert_eq!(sq("H8"), sq("h8"));
}

#[test]
fn notation_round_trip_for_every_square() {
    for rank in 0..8u8 {
        for file in 0..8u8 {
            let square = Square::new(rank, file).unwrap();
            let notation = square.to_notation();
            assert_eq!(Square::new_from_notation(&notation).unwrap(), square);
        }
    }
}

#[test]
fn parse_notation_rejects_wrong_lengths() {
    assert!(Square::new_from_notation("").is_err());
    assert!(Square::new_from_notation("e").is_err());
    assert!(Square::new_from_notation("e44").is_err());
    assert!(Square::new_from_notation("e4 ").is_err());
}

#[test]
fn parse_notation_rejects_out_of_range_characters() {
    assert!(Square::new_from_notation("i4").is_err());
    assert!(Square::new_from_notation("e9").is_err());
    assert!(Square::new_from_notation("e0").is_err());
    assert!(Square::new_from_notation("44").is_err());
    assert!(Square::new_from_notation("ee").is_err());
    assert!(Square::new_from_notation("!?").is_err());
}

#[test]
fn offset_moves_within_the_board() {
    let e2 = sq("e2");
    assert_eq!(e2.offset(2, 0).unwrap(), sq("e4"));
    assert_eq!(e2.offset(-1, -1).unwrap(), sq("d1"));
    assert_eq!(e2.offset(1, 3).unwrap(), sq("h3"));
}

#[test]
fn offset_fails_off_the_board() {
    assert!(sq("e2").offset(-2, 0).is_err());
    assert!(sq("a1").offset(0, -1).is_err());
    assert!(sq("h8").offset(1, 0).is_err());
    assert!(sq("h8").offset(0, 1).is_err());
}

#[test]
fn accessors_agree_with_construction() {
    let square = Square::new(5, 2).unwrap();
    assert_eq!(square.rank(), 5);
    assert_eq!(square.file(), 2);
    assert_eq!(square.rank_file(), (5, 2));
}

//! Piece values: colors, piece kinds and their movement offset tables.

use vstd::prelude::*;

verus! {

#[derive(Debug, Clone, Copy, PartialEq, Eq, Hash, Structural)]
pub enum Color {
    White,
    Black,
}

impl Color {
    /// The other side.
    pub open spec fn spec_opposite(self) -> Color {
        match self {
            Color::White => Color::Black,
            Color::Black => Color::White,
        }
    }

    pub fn opposite(self) -> (r: Self)
        ensures
            r == self.spec_opposite(),
    {
        match self {
            Color::White => Color::Black,
            Color::Black => Color::White,
        }
    }
}

#[derive(Debug, Clone, Copy, PartialEq, Eq, Hash, Structural)]
pub enum PieceType {
    Pawn,
    Knight,
    Bishop,
    Rook,
    Queen,
    King,
}

/// The fixed table of (rank, file) step offsets of a piece kind: the jumps
/// of a knight, the single steps of a king, and the ray directions of the
/// sliding pieces. The pawn has no table; its moves are special-cased.
pub open spec fn spec_offsets(t: PieceType) -> Seq<(i8, i8)> {
    match t {
        PieceType::Pawn => seq![],
        PieceType::Knight => seq![
            (-2i8, -1i8),
            (-2i8, 1i8),
            (-1i8, -2i8),
            (-1i8, 2i8),
            (1i8, -2i8),
            (1i8, 2i8),
            (2i8, -1i8),
            (2i8, 1i8),
        ],
        PieceType::Bishop => seq![(-1i8, -1i8), (-1i8, 1i8), (1i8, -1i8), (1i8, 1i8)],
        PieceType::Rook => seq![(-1i8, 0i8), (0i8, -1i8), (0i8, 1i8), (1i8, 0i8)],
        PieceType::Queen => seq![
            (-1i8, -1i8),
            (-1i8, 0i8),
            (-1i8, 1i8),
            (0i8, -1i8),
            (0i8, 1i8),
            (1i8, -1i8),
            (1i8, 0i8),
            (1i8, 1i8),
        ],
        PieceType::King => seq![
            (-1i8, -1i8),
            (-1i8, 0i8),
            (-1i8, 1i8),
            (0i8, -1i8),
            (0i8, 1i8),
            (1i8, -1i8),
            (1i8, 0i8),
            (1i8, 1i8),
        ],
    }
}

impl PieceType {
    pub fn get_offsets(&self) -> (r: Vec<(i8, i8)>)
        ensures
            r@ == spec_offsets(*self),
    {
        let r: Vec<(i8, i8)> = match self {
            PieceType::Pawn => vec![],
            PieceType::Knight => vec![
                (-2, -1),
                (-2, 1),
                (-1, -2),
                (-1, 2),
                (1, -2),
                (1, 2),
                (2, -1),
                (2, 1),
            ],
            PieceType::Bishop => vec![(-1, -1), (-1, 1), (1, -1), (1, 1)],
            PieceType::Rook => vec![(-1, 0), (0, -1), (0, 1), (1, 0)],
            PieceType::Queen => vec![
                (-1, -1),
                (-1, 0),
                (-1, 1),
                (0, -1),
                (0, 1),
                (1, -1),
                (1, 0),
                (1, 1),
            ],
            PieceType::King => vec![
                (-1, -1),
                (-1, 0),
                (-1, 1),
                (0, -1),
                (0, 1),
                (1, -1),
                (1, 0),
                (1, 1),
            ],
        };
        proof {
            assert(r@ =~= spec_offsets(*self));
        }
        r
    }
}

#[derive(Debug, Clone, Copy, PartialEq, Eq, Structural)]
pub struct Piece {
    pub color: Color,
    pub piece_type: PieceType,
}

/// The Unicode chess glyph of a piece, as a one-character string.
pub open spec fn glyph(p: Piece) -> Seq<char> {
    match p.color {
        Color::White => match p.piece_type {
            PieceType::King => seq!['\u{2654}'],
            PieceType::Queen => seq!['\u{2655}'],
            PieceType::Rook => seq!['\u{2656}'],
            PieceType::Bishop => seq!['\u{2657}'],
            PieceType::Knight => seq!['\u{2658}'],
            PieceType::Pawn => seq!['\u{2659}'],
        },
        Color::Black => match p.piece_type {
            PieceType::King => seq!['\u{265A}'],
            PieceType::Queen => seq!['\u{265B}'],
            PieceType::Rook => seq!['\u{265C}'],
            PieceType::Bishop => seq!['\u{265D}'],
            PieceType::Knight => seq!['\u{265E}'],
            PieceType::Pawn => seq!['\u{265F}'],
        },
    }
}

impl Piece {
    pub fn new(color: Color, piece_type: PieceType) -> (r: Self)
        ensures
            r.color == color && r.piece_type == piece_type,
    {
        Self { color, piece_type }
    }

    pub fn opposite_color(&self) -> (r: Color)
        ensures
            r == self.color.spec_opposite(),
    {
        self.color.opposite()
    }

    pub fn get_piece_ascii(&self) -> (r: String)
        ensures
            r@ == glyph(*self),
    {
        let s: &str = match self.color {
            Color::White => match self.piece_type {
                PieceType::King => "\u{2654}",
                PieceType::Queen => "\u{2655}",
                PieceType::Rook => "\u{2656}",
                PieceType::Bishop => "\u{2657}",
                PieceType::Knight => "\u{2658}",
                PieceType::Pawn => "\u{2659}",
            },
            Color::Black => match self.piece_type {
                PieceType::King => "\u{265A}",
                PieceType::Queen => "\u{265B}",
                PieceType::Rook => "\u{265C}",
                PieceType::Bishop => "\u{265D}",
                PieceType::Knight => "\u{265E}",
                PieceType::Pawn => "\u{265F}",
            },
        };
        proof {
            reveal_strlit("\u{2654}");
            reveal_strlit("\u{2655}");
            reveal_strlit("\u{2656}");
            reveal_strlit("\u{2657}");
            reveal_strlit("\u{2658}");
            reveal_strlit("\u{2659}");
            reveal_strlit("\u{265A}");
            reveal_strlit("\u{265B}");
            reveal_strlit("\u{265C}");
            reveal_strlit("\u{265D}");
            reveal_strlit("\u{265E}");
            reveal_strlit("\u{265F}");
        }
        let r = String::from_str(s);
        proof {
            assert(r@ =~= glyph(*self));
        }
        r
    }

    pub fn promote_to(&mut self, piece_type: PieceType)
        ensures
            final(self).piece_type == piece_type,
            final(self).color == old(self).color,
    {
        self.piece_type = piece_type;
    }
}

} // verus!

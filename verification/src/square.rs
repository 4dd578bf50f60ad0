//! Board coordinates and their algebraic notation.

use vstd::prelude::*;

verus! {

/// A validated board coordinate: rank 0-7 (printed "1"-"8") and
/// file 0-7 (printed "a"-"h").
#[derive(Debug, Clone, Copy, PartialEq, Eq, Structural)]
pub struct Square {
    rank: u8,
    file: u8,
}

/// The file letter of a file index, as used in algebraic notation.
pub open spec fn file_char(f: int) -> char {
    if f == 0 {
        'a'
    } else if f == 1 {
        'b'
    } else if f == 2 {
        'c'
    } else if f == 3 {
        'd'
    } else if f == 4 {
        'e'
    } else if f == 5 {
        'f'
    } else if f == 6 {
        'g'
    } else {
        'h'
    }
}

/// The rank digit of a rank index, as used in algebraic notation.
pub open spec fn rank_char(r: int) -> char {
    if r == 0 {
        '1'
    } else if r == 1 {
        '2'
    } else if r == 2 {
        '3'
    } else if r == 3 {
        '4'
    } else if r == 4 {
        '5'
    } else if r == 5 {
        '6'
    } else if r == 6 {
        '7'
    } else {
        '8'
    }
}

/// The two-character algebraic notation of the coordinate (r, f).
pub open spec fn notation_seq(r: int, f: int) -> Seq<char> {
    seq![file_char(f), rank_char(r)]
}

/// The file index denoted by a letter, case-insensitively; None for any
/// character that is not a file letter.
pub open spec fn file_of_char(c: char) -> Option<int> {
    if c == 'a' || c == 'A' {
        Some(0int)
    } else if c == 'b' || c == 'B' {
        Some(1int)
    } else if c == 'c' || c == 'C' {
        Some(2int)
    } else if c == 'd' || c == 'D' {
        Some(3int)
    } else if c == 'e' || c == 'E' {
        Some(4int)
    } else if c == 'f' || c == 'F' {
        Some(5int)
    } else if c == 'g' || c == 'G' {
        Some(6int)
    } else if c == 'h' || c == 'H' {
        Some(7int)
    } else {
        None
    }
}

/// The rank index denoted by a digit; None for any character that is not
/// a rank digit.
pub open spec fn rank_of_char(c: char) -> Option<int> {
    if c == '1' {
        Some(0int)
    } else if c == '2' {
        Some(1int)
    } else if c == '3' {
        Some(2int)
    } else if c == '4' {
        Some(3int)
    } else if c == '5' {
        Some(4int)
    } else if c == '6' {
        Some(5int)
    } else if c == '7' {
        Some(6int)
    } else if c == '8' {
        Some(7int)
    } else {
        None
    }
}

/// What a notation string denotes: the (rank, file) pair of a square, or
/// None when the string does not have exactly two characters or either
/// character is out of range.
pub open spec fn parse_notation(s: Seq<char>) -> Option<(int, int)> {
    if s.len() != 2 {
        None
    } else {
        match (file_of_char(s[0]), rank_of_char(s[1])) {
            (Some(f), Some(r)) => Some((r, f)),
            _ => None,
        }
    }
}

impl Square {
    /// Every square that can be constructed lies on the board.
    #[verifier::type_invariant]
    pub open spec fn wf(self) -> bool {
        0 <= self.spec_rank() < 8 && 0 <= self.spec_file() < 8
    }

    /// The rank index of this square.
    pub closed spec fn spec_rank(self) -> int {
        self.rank as int
    }

    /// The file index of this square.
    pub closed spec fn spec_file(self) -> int {
        self.file as int
    }

    pub fn new(rank: u8, file: u8) -> (r: Result<Self, &'static str>)
        ensures
            r is Ok <==> (rank < 8 && file < 8),
            r is Ok ==> r->Ok_0.spec_rank() == rank as int && r->Ok_0.spec_file() == file as int,
    {
        if rank < 8 && file < 8 {
            Ok(Self { rank, file })
        } else {
            Err("Tried to create a square out of bounds\n")
        }
    }

    pub fn new_from_notation(notation: &str) -> (r: Result<Self, &'static str>)
        ensures
            r is Ok <==> parse_notation(notation@) is Some,
            r is Ok ==> {
                let (pr, pf) = parse_notation(notation@)->0;
                r->Ok_0.spec_rank() == pr && r->Ok_0.spec_file() == pf
            },
    {
        if notation.unicode_len() != 2 {
            return Err("Error trying to read position notation\n");
        }

        let file_letter = notation.get_char(0);
        let rank_digit = notation.get_char(1);

        let file: u8 = match file_letter {
            'a' | 'A' => 0,
            'b' | 'B' => 1,
            'c' | 'C' => 2,
            'd' | 'D' => 3,
            'e' | 'E' => 4,
            'f' | 'F' => 5,
            'g' | 'G' => 6,
            'h' | 'H' => 7,
            _ => return Err("Tried to create a square out of bounds\n"),
        };
        let rank: u8 = match rank_digit {
            '1' => 0,
            '2' => 1,
            '3' => 2,
            '4' => 3,
            '5' => 4,
            '6' => 5,
            '7' => 6,
            '8' => 7,
            _ => return Err("Tried to create a square out of bounds\n"),
        };

        Ok(Self { rank, file })
    }

    pub fn to_notation(&self) -> (r: String)
        ensures
            r@ == notation_seq(self.spec_rank(), self.spec_file()),
    {
        proof {
            use_type_invariant(self);
        }
        let file_part: &str = match self.file {
            0 => "a",
            1 => "b",
            2 => "c",
            3 => "d",
            4 => "e",
            5 => "f",
            6 => "g",
            _ => "h",
        };
        let rank_part: &str = match self.rank {
            0 => "1",
            1 => "2",
            2 => "3",
            3 => "4",
            4 => "5",
            5 => "6",
            6 => "7",
            _ => "8",
        };
        proof {
            reveal_strlit("a");
            reveal_strlit("b");
            reveal_strlit("c");
            reveal_strlit("d");
            reveal_strlit("e");
            reveal_strlit("f");
            reveal_strlit("g");
            reveal_strlit("h");
            reveal_strlit("1");
            reveal_strlit("2");
            reveal_strlit("3");
            reveal_strlit("4");
            reveal_strlit("5");
            reveal_strlit("6");
            reveal_strlit("7");
            reveal_strlit("8");
        }
        let r = String::from_str(file_part).concat(rank_part);
        proof {
            assert(r@ =~= notation_seq(self.spec_rank(), self.spec_file()));
        }
        r
    }

    pub fn offset(&self, rank_offset: i8, file_offset: i8) -> (r: Result<Self, &'static str>)
        ensures
            r is Ok <==> (0 <= self.spec_rank() + rank_offset < 8 && 0 <= self.spec_file()
                + file_offset < 8),
            r is Ok ==> r->Ok_0.spec_rank() == self.spec_rank() + rank_offset
                && r->Ok_0.spec_file() == self.spec_file() + file_offset,
    {
        proof {
            use_type_invariant(self);
        }
        let new_rank: i16 = self.rank as i16 + rank_offset as i16;
        let new_file: i16 = self.file as i16 + file_offset as i16;

        if new_rank >= 0 && new_rank < 8 && new_file >= 0 && new_file < 8 {
            Ok(Self { rank: new_rank as u8, file: new_file as u8 })
        } else {
            Err("Tried to create a square out of bounds\n")
        }
    }

    pub fn rank(&self) -> (r: u8)
        ensures
            r as int == self.spec_rank(),
    {
        self.rank
    }

    pub fn file(&self) -> (r: u8)
        ensures
            r as int == self.spec_file(),
    {
        self.file
    }

    pub fn rank_file(&self) -> (r: (u8, u8))
        ensures
            r.0 as int == self.spec_rank() && r.1 as int == self.spec_file(),
    {
        (self.rank, self.file)
    }
}

/// Two squares are equal exactly when their coordinates are.
pub proof fn lemma_square_eq(a: Square, b: Square)
    ensures
        (a == b) <==> (a.spec_rank() == b.spec_rank() && a.spec_file() == b.spec_file()),
{
}

/// Reading a square's notation back yields the same square: parsing is a
/// left inverse of printing for every valid coordinate.
pub proof fn lemma_notation_round_trip(r: int, f: int)
    requires
        0 <= r < 8,
        0 <= f < 8,
    ensures
        parse_notation(notation_seq(r, f)) == Some((r, f)),
{
}

} // verus!

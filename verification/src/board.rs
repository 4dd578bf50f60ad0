//! The board: an 8 by 8 grid of optional pieces, the en-passant target and
//! the castling-rights flags, with move application, attack computation,
//! legality filtering and terminal-state detection.

use crate::piece::{spec_offsets, Color, Piece, PieceType};
use crate::rules::{
    apply_en_passant_capture, apply_move, attacker_at, attacks, can_castle_king_side,
    can_castle_queen_side, castle_rank, checkmated, has_king, in_bounds, is_castle_move,
    is_first_king, side_has_move, stalemated, valid_move,
};
use crate::rules::{has_promotion_square, is_promo_candidate, is_promotion_square};
use crate::rules::{
    is_king_at, king_in_check, king_step, knight_jump, lemma_king_offset,
    lemma_king_step_has_index, lemma_knight_jump_has_index, lemma_knight_offset,
    covering_enemy_at, covers, lemma_ray_monotone, lemma_slide_dir_has_index,
    lemma_slider_offset, lemma_unchecked_in_bounds, move_castle_rook, new_en_passant,
    filter_valid, king_targets, lemma_pawn_targets_iff, own_piece_at, pawn_dir, pawn_ep_move,
    pawn_targets, ray_targets, slide_targets, valid_targets,
    square_covered, step_targets, target_if, unchecked_targets,
    pawn_move, pawn_start_rank, ray_clear, ray_reaches, ray_reaches_dir, slide_dir,
    square_attacked, starting_board, starting_piece, unchecked_move, update_castle_rights,
    BoardView,
};
use crate::square::{lemma_square_eq, Square};
use vstd::prelude::*;

verus! {

#[derive(Clone, Copy)]
pub struct Board {
    squares: [[Option<Piece>; 8]; 8],
    en_passant: Option<Square>,
    castle_king_side_white: bool,
    castle_queen_side_white: bool,
    castle_king_side_black: bool,
    castle_queen_side_black: bool,
}

impl View for Board {
    type V = BoardView;

    closed spec fn view(&self) -> BoardView {
        BoardView {
            grid: Seq::new(8, |r: int| Seq::new(8, |f: int| self.squares[r][f])),
            en_passant: match self.en_passant {
                None => None,
                Some(s) => Some((s.spec_rank(), s.spec_file())),
            },
            castle_king_side_white: self.castle_king_side_white,
            castle_queen_side_white: self.castle_queen_side_white,
            castle_king_side_black: self.castle_king_side_black,
            castle_queen_side_black: self.castle_queen_side_black,
        }
    }
}

/// The view of every board is an 8 by 8 grid.
pub broadcast proof fn lemma_board_view_wf(b: Board)
    ensures
        #[trigger] b@.wf(),
{
}

/// The list holds a square with these coordinates.
pub open spec fn contains_coords(s: Seq<Square>, r: int, f: int) -> bool {
    exists|idx: int|
        0 <= idx < s.len() && (#[trigger] s[idx]).spec_rank() == r && s[idx].spec_file() == f
}

/// Appending keeps every coordinate pair the list already holds.
pub broadcast proof fn lemma_contains_coords_push(s: Seq<Square>, x: Square, r: int, f: int)
    requires
        contains_coords(s, r, f),
    ensures
        #[trigger] contains_coords(s.push(x), r, f),
{
    let idx = choose|idx: int|
        0 <= idx < s.len() && (#[trigger] s[idx]).spec_rank() == r && s[idx].spec_file() == f;
    assert(s.push(x)[idx] == s[idx]);
}

/// An appended square's own coordinates are held.
pub broadcast proof fn lemma_contains_coords_pushed(s: Seq<Square>, x: Square)
    ensures
        #[trigger] contains_coords(s.push(x), x.spec_rank(), x.spec_file()),
{
    assert(s.push(x)[s.len() as int] == x);
}

/// The coordinates of a list of squares, in order.
pub open spec fn coords_of(s: Seq<Square>) -> Seq<(int, int)> {
    s.map_values(|q: Square| (q.spec_rank(), q.spec_file()))
}

/// Appending a square appends its coordinates.
pub broadcast proof fn lemma_coords_of_push(s: Seq<Square>, x: Square)
    ensures
        #[trigger] coords_of(s.push(x)) == coords_of(s).push((x.spec_rank(), x.spec_file())),
{
    assert(coords_of(s.push(x)) =~= coords_of(s).push((x.spec_rank(), x.spec_file())));
}

/// Two square lists with the same coordinates are the same list: a square
/// is nothing but its coordinates, so a contract that fixes
/// `coords_of(result@)` fixes the result. In particular, two calls of
/// `get_valid_moves` on equal boards return equal vectors.
pub proof fn lemma_coords_determine_squares(a: Seq<Square>, b: Seq<Square>)
    requires
        coords_of(a) == coords_of(b),
    ensures
        a == b,
{
    assert(coords_of(a).len() == a.len() && coords_of(b).len() == b.len());
    assert forall|i: int| 0 <= i < a.len() implies a[i] == b[i] by {
        assert(coords_of(a)[i] == (a[i].spec_rank(), a[i].spec_file()));
        assert(coords_of(b)[i] == (b[i].spec_rank(), b[i].spec_file()));
        lemma_square_eq(a[i], b[i]);
    }
    assert(a =~= b);
}

impl Board {
    /// Whatever en-passant target a board records lies on the board: the
    /// stored value is a validated square. `use_type_invariant` hands
    /// this fact to any holder of a board, so spec-level reasoning about
    /// `apply_move` never has to assume it.
    #[verifier::type_invariant]
    pub open spec fn wf_en_passant(self) -> bool {
        self@.en_passant matches Some(e) ==> in_bounds(e.0, e.1)
    }

    /// An empty board with every castling right still intact.
    pub fn new() -> (r: Self)
        ensures
            forall|rr: int, ff: int| in_bounds(rr, ff) ==> #[trigger] r@.at(rr, ff) is None,
            r@.en_passant is None,
            r@.castle_king_side_white,
            r@.castle_queen_side_white,
            r@.castle_king_side_black,
            r@.castle_queen_side_black,
    {
        Self {
            squares: [[None;8];8],
            en_passant: None,
            castle_king_side_white: true,
            castle_queen_side_white: true,
            castle_king_side_black: true,
            castle_queen_side_black: true,
        }
    }

    /// The standard starting position.
    pub fn new_starting_default() -> (r: Self)
        ensures
            starting_board(r@),
    {
        let mut board = Self::new();

        for file in 0..8usize
            invariant
                board@.en_passant is None,
                board@.castle_king_side_white,
                board@.castle_queen_side_white,
                board@.castle_king_side_black,
                board@.castle_queen_side_black,
                forall|rr: int, ff: int|
                    in_bounds(rr, ff) ==> #[trigger] board@.at(rr, ff) == (if rr == 1 && ff < file {
                        Some(Piece { color: Color::White, piece_type: PieceType::Pawn })
                    } else if rr == 6 && ff < file {
                        Some(Piece { color: Color::Black, piece_type: PieceType::Pawn })
                    } else {
                        Option::<Piece>::None
                    }),
        {
            let ghost b0 = board@;
            board.set_piece(
                Square::new(1, file as u8).unwrap(),
                Some(Piece::new(Color::White, PieceType::Pawn)),
            );
            board.set_piece(
                Square::new(6, file as u8).unwrap(),
                Some(Piece::new(Color::Black, PieceType::Pawn)),
            );
            proof {
                assert forall|rr: int, ff: int| in_bounds(rr, ff) implies #[trigger] board@.at(
                    rr,
                    ff,
                ) == (if rr == 1 && ff < file + 1 {
                    Some(Piece { color: Color::White, piece_type: PieceType::Pawn })
                } else if rr == 6 && ff < file + 1 {
                    Some(Piece { color: Color::Black, piece_type: PieceType::Pawn })
                } else {
                    Option::<Piece>::None
                }) by {
                    if !(rr == 1 && ff == file) && !(rr == 6 && ff == file) {
                        assert(board@.at(rr, ff) == b0.at(rr, ff));
                    }
                }
            }
        }

        let back_rank: [PieceType; 8] = [
            PieceType::Rook,
            PieceType::Knight,
            PieceType::Bishop,
            PieceType::Queen,
            PieceType::King,
            PieceType::Bishop,
            PieceType::Knight,
            PieceType::Rook,
        ];

        for file in 0..8usize
            invariant
                board@.en_passant is None,
                board@.castle_king_side_white,
                board@.castle_queen_side_white,
                board@.castle_king_side_black,
                board@.castle_queen_side_black,
                back_rank@ =~= seq![
                    PieceType::Rook,
                    PieceType::Knight,
                    PieceType::Bishop,
                    PieceType::Queen,
                    PieceType::King,
                    PieceType::Bishop,
                    PieceType::Knight,
                    PieceType::Rook,
                ],
                forall|rr: int, ff: int|
                    in_bounds(rr, ff) ==> #[trigger] board@.at(rr, ff) == (if (rr == 0 || rr == 7)
                        && ff < file {
                        starting_piece(rr, ff)
                    } else if rr == 1 || rr == 6 {
                        starting_piece(rr, ff)
                    } else {
                        Option::<Piece>::None
                    }),
        {
            let ghost b0 = board@;
            board.set_piece(
                Square::new(0, file as u8).unwrap(),
                Some(Piece::new(Color::White, back_rank[file])),
            );
            board.set_piece(
                Square::new(7, file as u8).unwrap(),
                Some(Piece::new(Color::Black, back_rank[file])),
            );
            proof {
                assert forall|rr: int, ff: int| in_bounds(rr, ff) implies #[trigger] board@.at(
                    rr,
                    ff,
                ) == (if (rr == 0 || rr == 7) && ff < file + 1 {
                    starting_piece(rr, ff)
                } else if rr == 1 || rr == 6 {
                    starting_piece(rr, ff)
                } else {
                    Option::<Piece>::None
                }) by {
                    if !(rr == 0 && ff == file) && !(rr == 7 && ff == file) {
                        assert(board@.at(rr, ff) == b0.at(rr, ff));
                    }
                }
            }
        }

        board
    }

    pub fn get_piece(&self, square: Square) -> (r: Option<Piece>)
        ensures
            r == self@.at(square.spec_rank(), square.spec_file()),
    {
        proof {
            use_type_invariant(&square);
        }
        self.squares[square.rank() as usize][square.file() as usize]
    }

    pub fn set_piece(&mut self, square: Square, piece: Option<Piece>)
        ensures
            final(self)@ == old(self)@.set_at(square.spec_rank(), square.spec_file(), piece),
    {
        proof {
            use_type_invariant(&*self);
            use_type_invariant(&square);
        }
        let r = square.rank() as usize;
        let f = square.file() as usize;
        let mut row = self.squares[r];
        row[f] = piece;
        self.squares[r] = row;
        proof {
            assert(self@ =~~= old(self)@.set_at(square.spec_rank(), square.spec_file(), piece));
        }
    }

    /// The move just made arms the en-passant window: a pawn advanced two
    /// ranks from its starting rank.
    fn move_allows_en_passant(&mut self, piece: Piece, from: Square, to: Square) -> (r: bool)
        ensures
            *final(self) == *old(self),
            r == (new_en_passant(piece, from.spec_rank(), to.spec_rank(), to.spec_file())
                is Some),
    {
        if piece.piece_type != PieceType::Pawn {
            return false;
        }

        (piece.color == Color::White && from.rank() == 1 && to.rank() == 3) || (piece.color
            == Color::Black && from.rank() == 6 && to.rank() == 4)
    }

    /// The move is a castle: a king moving two files from its home square.
    fn is_move_a_castle(&self, from_piece: Piece, from: Square, to: Square) -> (r: bool)
        ensures
            r == is_castle_move(
                from_piece,
                from.spec_rank(),
                from.spec_file(),
                to.spec_rank(),
                to.spec_file(),
            ),
    {
        if from_piece.piece_type != PieceType::King {
            return false;
        }

        let (fr, ff) = from.rank_file();
        let (tr, tf) = to.rank_file();

        // white king moves to castle
        if fr == 0 && ff == 4 && (tr == 0 && (tf == 2 || tf == 6)) {
            return true;
        }

        // black king moves to castle
        if fr == 7 && ff == 4 && (tr == 7 && (tf == 2 || tf == 6)) {
            return true;
        }

        false
    }

    /// Bring the corner rook along: whatever stands on the corner belonging
    /// to the king's castle destination moves beside the king.
    fn move_rook_to_castle(&mut self, king_to: Square)
        ensures
            final(self)@ == move_castle_rook(old(self)@, king_to.spec_rank(), king_to.spec_file()),
    {
        let (kr, kf) = king_to.rank_file();
        let (rook_square, rook_to) = if kr == 0 && kf == 2 {
            (Square::new(0, 0).unwrap(), Square::new(0, 3).unwrap())
        } else if kr == 0 && kf == 6 {
            (Square::new(0, 7).unwrap(), Square::new(0, 5).unwrap())
        } else if kr == 7 && kf == 2 {
            (Square::new(7, 0).unwrap(), Square::new(7, 3).unwrap())
        } else if kr == 7 && kf == 6 {
            (Square::new(7, 7).unwrap(), Square::new(7, 5).unwrap())
        } else {
            return;
        };

        let rook_piece = self.get_piece(rook_square);
        self.set_piece(rook_to, rook_piece);
        self.set_piece(rook_square, None);
    }

    /// Take the pawn captured en passant: when a pawn lands one step beyond
    /// the recorded en-passant square, clear that square.
    fn verify_and_move_en_passant(&mut self, from_piece: Piece, to: Square)
        ensures
            final(self)@ == apply_en_passant_capture(
                old(self)@,
                from_piece,
                old(self)@.en_passant,
                to.spec_rank(),
                to.spec_file(),
            ),
    {
        if from_piece.piece_type != PieceType::Pawn {
            return;
        }

        // if from_piece is attacking the en-passant square
        if let Some(passant) = self.en_passant {
            let direction: i8 = match from_piece.color {
                Color::White => 1,
                Color::Black => -1,
            };

            match passant.offset(direction, 0) {
                Ok(beyond) => {
                    proof {
                        crate::square::lemma_square_eq(beyond, to);
                    }
                    if beyond == to {
                        self.set_piece(passant, None);
                    }
                },
                Err(_) => {},
            }
        }
    }

    /// Permanently revoke the castling rights spent by this piece leaving
    /// its home square.
    fn update_castling_allowance(&mut self, from_piece: Piece, from: Square)
        ensures
            final(self)@ == update_castle_rights(
                old(self)@,
                from_piece,
                from.spec_rank(),
                from.spec_file(),
            ),
    {
        proof {
            use_type_invariant(&*self);
        }
        if from_piece.piece_type == PieceType::King {
            match from_piece.color {
                Color::Black => {
                    self.castle_king_side_black = false;
                    self.castle_queen_side_black = false;
                },
                Color::White => {
                    self.castle_king_side_white = false;
                    self.castle_queen_side_white = false;
                },
            }
        }

        if from_piece.piece_type == PieceType::Rook {
            let (fr, ff) = from.rank_file();
            if fr == 0 && ff == 0 {
                self.castle_queen_side_white = false;
            } else if fr == 0 && ff == 7 {
                self.castle_king_side_white = false;
            } else if fr == 7 && ff == 0 {
                self.castle_queen_side_black = false;
            } else if fr == 7 && ff == 7 {
                self.castle_king_side_black = false;
            }
        }
        proof {
            assert(self@ =~~= update_castle_rights(
                old(self)@,
                from_piece,
                from.spec_rank(),
                from.spec_file(),
            ));
        }
    }

    /// Move the piece on `from` to `to`, with every side effect of the
    /// rules: an en-passant capture removes the passed pawn, a castle
    /// brings the rook along, the spent castling rights are revoked, and
    /// the en-passant window is re-armed exactly after a double pawn
    /// advance. A move from an empty square is a no-op.
    pub fn make_move(&mut self, from: Square, to: Square)
        ensures
            final(self)@ == apply_move(
                old(self)@,
                from.spec_rank(),
                from.spec_file(),
                to.spec_rank(),
                to.spec_file(),
            ),
    {
        let from_piece = match self.get_piece(from) {
            Some(p) => p,
            None => {
                return;
            },
        };
        // move piece
        self.set_piece(to, Some(from_piece));
        self.set_piece(from, None);

        // handle en passant
        self.verify_and_move_en_passant(from_piece, to);

        // handle castling
        if self.is_move_a_castle(from_piece, from, to) {
            self.move_rook_to_castle(to);
        }

        // update castling allowance every move
        self.update_castling_allowance(from_piece, from);

        // update the en-passant window after every move
        self.en_passant = None;
        if self.move_allows_en_passant(from_piece, from, to) {
            proof {
                use_type_invariant(&to);
            }
            self.en_passant = Some(to);
        }
        proof {
            assert(self@ =~~= apply_move(
                old(self)@,
                from.spec_rank(),
                from.spec_file(),
                to.spec_rank(),
                to.spec_file(),
            ));
        }
    }

    /// Walk outward from `from` in the unit direction (rank_offset,
    /// file_offset) and report whether `to` is reached before any blocker.
    #[verifier::loop_isolation(false)]
    fn walk_ray(&self, from: Square, rank_offset: i8, file_offset: i8, to: Square) -> (r: bool)
        requires
            -1 <= rank_offset <= 1,
            -1 <= file_offset <= 1,
        ensures
            r == ray_reaches_dir(
                self@,
                from.spec_rank(),
                from.spec_file(),
                rank_offset as int,
                file_offset as int,
                to.spec_rank(),
                to.spec_file(),
            ),
    {
        proof {
            use_type_invariant(&from);
            use_type_invariant(&to);
        }
        let ghost v = self@;
        let ghost fr = from.spec_rank();
        let ghost ff = from.spec_file();
        let ghost dr = rank_offset as int;
        let ghost df = file_offset as int;
        let ghost tr = to.spec_rank();
        let ghost tf = to.spec_file();

        for radius in 1..8i8
            invariant
                forall|k: int|
                    1 <= k < radius ==> in_bounds(fr + k * dr, ff + k * df) && (#[trigger] v.at(
                        fr + k * dr,
                        ff + k * df,
                    )) is None && !(fr + k * dr == tr && ff + k * df == tf),
        {
            let ghost kr = radius as int;
            proof {
                assert(-7 <= kr * dr <= 7 && -7 <= kr * df <= 7) by (nonlinear_arith)
                    requires
                        1 <= kr < 8,
                        -1 <= dr <= 1,
                        -1 <= df <= 1,
                ;
            }
            let step_r: i8 = radius * rank_offset;
            let step_f: i8 = radius * file_offset;
            match from.offset(step_r, step_f) {
                Ok(square) => {
                    proof {
                        lemma_square_eq(square, to);
                    }
                    if square == to {
                        proof {
                            assert(ray_clear(v, fr, ff, dr, df, kr));
                            assert(tr == fr + kr * dr && tf == ff + kr * df && in_bounds(tr, tf));
                            assert(ray_reaches_dir(v, fr, ff, dr, df, tr, tf));
                        }
                        return true;
                    }
                    // blocked by another piece
                    if self.get_piece(square).is_some() {
                        proof {
                            assert(!ray_reaches_dir(v, fr, ff, dr, df, tr, tf)) by {
                                if ray_reaches_dir(v, fr, ff, dr, df, tr, tf) {
                                    let k = choose|k: int|
                                        1 <= k < 8 && tr == fr + k * dr && tf == ff + k * df
                                            && in_bounds(tr, tf) && ray_clear(v, fr, ff, dr, df, k);
                                    if k < kr {
                                        assert(v.at(fr + k * dr, ff + k * df) is None);
                                        assert(false);
                                    } else if k == kr {
                                        assert(false);
                                    } else {
                                        assert(ray_clear(v, fr, ff, dr, df, k));
                                        assert(v.at(fr + kr * dr, ff + kr * df) is None);
                                        assert(false);
                                    }
                                }
                            }
                        }
                        return false;
                    }
                },
                Err(_) => {
                    proof {
                        assert(!in_bounds(fr + kr * dr, ff + kr * df));
                        assert(!ray_reaches_dir(v, fr, ff, dr, df, tr, tf)) by {
                            if ray_reaches_dir(v, fr, ff, dr, df, tr, tf) {
                                let k = choose|k: int|
                                    1 <= k < 8 && tr == fr + k * dr && tf == ff + k * df
                                        && in_bounds(tr, tf) && ray_clear(v, fr, ff, dr, df, k);
                                if k < kr {
                                    assert(v.at(fr + k * dr, ff + k * df) is None);
                                    assert(false);
                                } else {
                                    lemma_ray_monotone(fr, ff, dr, df, kr, k);
                                    assert(false);
                                }
                            }
                        };
                    }
                    return false;
                },
            }
        }
        proof {
            assert(!ray_reaches_dir(v, fr, ff, dr, df, tr, tf)) by {
                if ray_reaches_dir(v, fr, ff, dr, df, tr, tf) {
                    let k = choose|k: int|
                        1 <= k < 8 && tr == fr + k * dr && tf == ff + k * df && in_bounds(tr, tf)
                            && ray_clear(v, fr, ff, dr, df, k);
                    assert(v.at(fr + k * dr, ff + k * df) is None);
                    assert(false);
                }
            };
        }
        false
    }

    /// The piece on `from` attacks the occupied square `to`: the two
    /// The piece on `from` bears on `to` by its geometry alone, whatever
    /// stands on the target. Pawns bear on their two diagonal-forward
    /// squares only; the en-passant window plays no part here, it belongs
    /// to move generation.
    #[verifier::loop_isolation(false)]
    fn can_cover_square(&self, from: Square, to: Square) -> (r: bool)
        ensures
            r == covers(self@, from.spec_rank(), from.spec_file(), to.spec_rank(), to.spec_file()),
    {
        proof {
            use_type_invariant(&from);
            use_type_invariant(&to);
        }
        let ghost v = self@;
        let ghost fr = from.spec_rank();
        let ghost ff = from.spec_file();
        let ghost tr = to.spec_rank();
        let ghost tf = to.spec_file();

        let current = match self.get_piece(from) {
            Some(p) => p,
            None => {
                return false;
            },
        };

        match current.piece_type {
            PieceType::Knight | PieceType::King => {
                let offsets = current.piece_type.get_offsets();
                for i in 0..offsets.len()
                    invariant
                        forall|ii: int|
                            0 <= ii < i ==> !(tr == fr + (#[trigger] offsets@[ii]).0 && tf == ff
                                + offsets@[ii].1),
                {
                    let (rank_offset, file_offset) = offsets[i];
                    match from.offset(rank_offset, file_offset) {
                        Ok(square) => {
                            proof {
                                lemma_square_eq(square, to);
                            }
                            if square == to {
                                proof {
                                    if current.piece_type == PieceType::Knight {
                                        lemma_knight_offset(i as int);
                                    } else {
                                        lemma_king_offset(i as int);
                                    }
                                }
                                return true;
                            }
                        },
                        Err(_) => {},
                    }
                }
                proof {
                    if current.piece_type == PieceType::Knight {
                        if knight_jump(tr - fr, tf - ff) {
                            lemma_knight_jump_has_index(tr - fr, tf - ff);
                            let ii = choose|ii: int|
                                0 <= ii < spec_offsets(PieceType::Knight).len() && (
                                #[trigger] spec_offsets(PieceType::Knight)[ii]).0 == tr - fr
                                    && spec_offsets(PieceType::Knight)[ii].1 == tf - ff;
                            assert(false);
                        }
                    } else {
                        if king_step(tr - fr, tf - ff) {
                            lemma_king_step_has_index(tr - fr, tf - ff);
                            let ii = choose|ii: int|
                                0 <= ii < spec_offsets(PieceType::King).len() && (
                                #[trigger] spec_offsets(PieceType::King)[ii]).0 == tr - fr
                                    && spec_offsets(PieceType::King)[ii].1 == tf - ff;
                            assert(false);
                        }
                    }
                }
                false
            },
            PieceType::Pawn => {
                let direction: i8 = match current.color {
                    Color::White => 1,
                    Color::Black => -1,
                };

                let left = match from.offset(direction, -1) {
                    Ok(square) => {
                        proof {
                            lemma_square_eq(square, to);
                        }
                        square == to
                    },
                    Err(_) => false,
                };
                let right = match from.offset(direction, 1) {
                    Ok(square) => {
                        proof {
                            lemma_square_eq(square, to);
                        }
                        square == to
                    },
                    Err(_) => false,
                };
                left || right
            },
            _ => self.can_sliding_piece_reach(from, to, current),
        }
    }

    /// The piece on `from` attacks the occupied square `to`: the two
    /// pieces have opposite colors and the attacker's geometry bears on
    /// the target.
    fn can_attack_square(&self, from: Square, to: Square) -> (r: bool)
        ensures
            r == attacks(self@, from.spec_rank(), from.spec_file(), to.spec_rank(), to.spec_file()),
    {
        let current = match self.get_piece(from) {
            Some(p) => p,
            None => {
                return false;
            },
        };

        let target = match self.get_piece(to) {
            Some(p) => p,
            None => {
                return false;
            },
        };

        if target.color != current.opposite_color() {
            return false;
        }

        self.can_cover_square(from, to)
    }

    /// Some piece of the color opposing `color` attacks `check_square`.
    #[verifier::loop_isolation(false)]
    fn is_square_in_check(&self, check_square: Square, color: Color) -> (r: bool)
        ensures
            r == square_attacked(
                self@,
                check_square.spec_rank(),
                check_square.spec_file(),
                color,
            ),
    {
        let ghost v = self@;
        let ghost cr = check_square.spec_rank();
        let ghost cf = check_square.spec_file();

        for rank in 0..8u8
            invariant
                forall|ar: int, af: int|
                    0 <= ar < rank && 0 <= af < 8 ==> !(#[trigger] attacker_at(
                        v,
                        ar,
                        af,
                        cr,
                        cf,
                        color,
                    )),
        {
            for file in 0..8u8
                invariant
                    forall|ar: int, af: int|
                        0 <= ar < rank && 0 <= af < 8 ==> !(#[trigger] attacker_at(
                            v,
                            ar,
                            af,
                            cr,
                            cf,
                            color,
                        )),
                    forall|af: int|
                        0 <= af < file ==> !(#[trigger] attacker_at(
                            v,
                            rank as int,
                            af,
                            cr,
                            cf,
                            color,
                        )),
            {
                if let Ok(square) = Square::new(rank, file) {
                    if let Some(piece) = self.get_piece(square) {
                        if piece.opposite_color() == color && self.can_attack_square(
                            square,
                            check_square,
                        ) {
                            proof {
                                assert(attacker_at(v, rank as int, file as int, cr, cf, color));
                            }
                            return true;
                        }
                    }
                }
            }
        }

        proof {
            assert(!square_attacked(v, cr, cf, color)) by {
                if square_attacked(v, cr, cf, color) {
                    let (ar, af) = choose|ar: int, af: int|
                        in_bounds(ar, af) && #[trigger] attacker_at(v, ar, af, cr, cf, color);
                    assert(false);
                }
            };
        }
        false
    }

    /// Some piece of the color opposing `color` bears on `square`, empty
    /// or not: the test a castling king must pass on every square it
    /// touches, including the empty ones it passes through.
    #[verifier::loop_isolation(false)]
    fn is_square_covered(&self, square: Square, color: Color) -> (r: bool)
        ensures
            r == square_covered(self@, square.spec_rank(), square.spec_file(), color),
    {
        let ghost v = self@;
        let ghost cr = square.spec_rank();
        let ghost cf = square.spec_file();

        for rank in 0..8u8
            invariant
                forall|ar: int, af: int|
                    0 <= ar < rank && 0 <= af < 8 ==> !(#[trigger] covering_enemy_at(
                        v,
                        ar,
                        af,
                        cr,
                        cf,
                        color,
                    )),
        {
            for file in 0..8u8
                invariant
                    forall|ar: int, af: int|
                        0 <= ar < rank && 0 <= af < 8 ==> !(#[trigger] covering_enemy_at(
                            v,
                            ar,
                            af,
                            cr,
                            cf,
                            color,
                        )),
                    forall|af: int|
                        0 <= af < file ==> !(#[trigger] covering_enemy_at(
                            v,
                            rank as int,
                            af,
                            cr,
                            cf,
                            color,
                        )),
            {
                if let Ok(attacker) = Square::new(rank, file) {
                    if let Some(piece) = self.get_piece(attacker) {
                        if piece.opposite_color() == color && self.can_cover_square(
                            attacker,
                            square,
                        ) {
                            proof {
                                assert(covering_enemy_at(
                                    v,
                                    rank as int,
                                    file as int,
                                    cr,
                                    cf,
                                    color,
                                ));
                            }
                            return true;
                        }
                    }
                }
            }
        }

        proof {
            assert(!square_covered(v, cr, cf, color)) by {
                if square_covered(v, cr, cf, color) {
                    let (ar, af) = choose|ar: int, af: int|
                        in_bounds(ar, af) && #[trigger] covering_enemy_at(v, ar, af, cr, cf, color);
                    assert(false);
                }
            };
        }
        false
    }

    /// The square of the first king of `color` in a rank-major scan, if
    /// the board holds one.
    #[verifier::loop_isolation(false)]
    fn find_king_square(&self, color: Color) -> (r: Option<Square>)
        ensures
            match r {
                Some(s) => is_first_king(self@, color, s.spec_rank(), s.spec_file()),
                None => !has_king(self@, color),
            },
    {
        let ghost v = self@;
        for rank in 0..8u8
            invariant
                forall|r2: int, f2: int|
                    0 <= r2 < rank && 0 <= f2 < 8 ==> !(#[trigger] is_king_at(v, color, r2, f2)),
        {
            for file in 0..8u8
                invariant
                    forall|r2: int, f2: int|
                        0 <= r2 < rank && 0 <= f2 < 8 ==> !(#[trigger] is_king_at(v, color, r2, f2)),
                    forall|f2: int|
                        0 <= f2 < file ==> !(#[trigger] is_king_at(v, color, rank as int, f2)),
            {
                if let Ok(square) = Square::new(rank, file) {
                    if let Some(piece) = self.get_piece(square) {
                        if piece.piece_type == PieceType::King && piece.color == color {
                            return Some(square);
                        }
                    }
                }
            }
        }
        proof {
            assert(!has_king(v, color)) by {
                if has_king(v, color) {
                    let (r2, f2) = choose|r2: int, f2: int| #[trigger] is_king_at(v, color, r2, f2);
                    assert(false);
                }
            };
        }
        None
    }

    /// The king of `color` is in check: its square is attacked. A board
    /// without that king counts as in check.
    pub fn is_king_in_check(&self, color: Color) -> (r: bool)
        ensures
            r == king_in_check(self@, color),
    {
        let ghost v = self@;
        let king_square = match self.find_king_square(color) {
            Some(p) => p,
            None => {
                return true;
            },
        };
        let ghost kr = king_square.spec_rank();
        let ghost kf = king_square.spec_file();

        let res = self.is_square_in_check(king_square, color);
        proof {
            assert(is_king_at(v, color, kr, kf));
            if res {
                assert(is_first_king(v, color, kr, kf) && square_attacked(v, kr, kf, color));
            } else {
                if king_in_check(v, color) {
                    let (r2, f2) = choose|r2: int, f2: int|
                        #[trigger] is_first_king(v, color, r2, f2) && square_attacked(
                            v,
                            r2,
                            f2,
                            color,
                        );
                    assert(is_king_at(v, color, r2, f2));
                    assert(r2 == kr && f2 == kf);
                    assert(false);
                }
            }
        }
        res
    }

    /// Collect, walking outward from `from` along one ray, the squares the
    /// piece may move to: every empty square up to the first blocker, and
    /// the blocker itself when it holds an enemy piece.
    #[verifier::loop_isolation(false)]
    fn walk_ray_moves(
        &self,
        from: Square,
        rank_offset: i8,
        file_offset: i8,
        piece: Piece,
        all_moves: &mut Vec<Square>,
    )
        requires
            -1 <= rank_offset <= 1,
            -1 <= file_offset <= 1,
        ensures
            final(all_moves)@.len() >= old(all_moves)@.len(),
            forall|idx: int|
                0 <= idx < old(all_moves)@.len() ==> final(all_moves)@[idx] == old(
                    all_moves,
                )@[idx],
            forall|idx: int|
                old(all_moves)@.len() <= idx < final(all_moves)@.len() ==> ray_reaches_dir(
                    self@,
                    from.spec_rank(),
                    from.spec_file(),
                    rank_offset as int,
                    file_offset as int,
                    (#[trigger] final(all_moves)@[idx]).spec_rank(),
                    final(all_moves)@[idx].spec_file(),
                ) && !own_piece_at(
                    self@,
                    piece.color,
                    final(all_moves)@[idx].spec_rank(),
                    final(all_moves)@[idx].spec_file(),
                ),
            forall|tr2: int, tf2: int|
                #[trigger] ray_reaches_dir(
                    self@,
                    from.spec_rank(),
                    from.spec_file(),
                    rank_offset as int,
                    file_offset as int,
                    tr2,
                    tf2,
                ) && !own_piece_at(self@, piece.color, tr2, tf2) ==> exists|idx: int|
                    old(all_moves)@.len() <= idx < final(all_moves)@.len() && (
                    #[trigger] final(all_moves)@[idx]).spec_rank() == tr2
                        && final(all_moves)@[idx].spec_file() == tf2,
            coords_of(final(all_moves)@) == coords_of(old(all_moves)@) + ray_targets(
                self@,
                piece.color,
                from.spec_rank(),
                from.spec_file(),
                rank_offset as int,
                file_offset as int,
                1,
            ),
    {
        proof {
            use_type_invariant(&from);
        }
        let ghost v = self@;
        let ghost fr = from.spec_rank();
        let ghost ff = from.spec_file();
        let ghost dr = rank_offset as int;
        let ghost df = file_offset as int;
        let ghost base = all_moves@.len() as int;

        for radius in 1..8i8
            invariant
                all_moves@.len() >= base,
                forall|idx: int| 0 <= idx < base ==> all_moves@[idx] == old(all_moves)@[idx],
                forall|idx: int|
                    base <= idx < all_moves@.len() ==> ray_reaches_dir(
                        v,
                        fr,
                        ff,
                        dr,
                        df,
                        (#[trigger] all_moves@[idx]).spec_rank(),
                        all_moves@[idx].spec_file(),
                    ) && !own_piece_at(
                        v,
                        piece.color,
                        all_moves@[idx].spec_rank(),
                        all_moves@[idx].spec_file(),
                    ),
                forall|k: int|
                    1 <= k < radius ==> in_bounds(fr + k * dr, ff + k * df) && (#[trigger] v.at(
                        fr + k * dr,
                        ff + k * df,
                    )) is None && (exists|idx: int|
                        base <= idx < all_moves@.len() && (#[trigger] all_moves@[idx]).spec_rank()
                            == fr + k * dr && all_moves@[idx].spec_file() == ff + k * df),
                coords_of(old(all_moves)@) + ray_targets(v, piece.color, fr, ff, dr, df, 1)
                    == coords_of(all_moves@) + ray_targets(
                    v,
                    piece.color,
                    fr,
                    ff,
                    dr,
                    df,
                    radius as int,
                ),
        {
            let ghost kr = radius as int;
            proof {
                assert(-7 <= kr * dr <= 7 && -7 <= kr * df <= 7) by (nonlinear_arith)
                    requires
                        1 <= kr < 8,
                        -1 <= dr <= 1,
                        -1 <= df <= 1,
                ;
            }
            let step_r: i8 = radius * rank_offset;
            let step_f: i8 = radius * file_offset;
            match from.offset(step_r, step_f) {
                Ok(square) => {
                    let ghost pre = all_moves@;
                    if let Some(other_piece) = self.get_piece(square) {
                        // blocked - add if opposite color
                        if other_piece.color == piece.opposite_color() {
                            all_moves.push(square);
                        }
                        proof {
                            assert(ray_clear(v, fr, ff, dr, df, kr));
                            if other_piece.color == piece.color.spec_opposite() {
                                lemma_coords_of_push(pre, square);
                                assert(ray_targets(v, piece.color, fr, ff, dr, df, kr) =~= seq![
                                    (fr + kr * dr, ff + kr * df),
                                ]);
                            } else {
                                assert(ray_targets(v, piece.color, fr, ff, dr, df, kr)
                                    =~= Seq::<(int, int)>::empty());
                            }
                            assert(coords_of(all_moves@) =~= coords_of(old(all_moves)@)
                                + ray_targets(v, piece.color, fr, ff, dr, df, 1));
                            assert forall|tr2: int, tf2: int|
                                #[trigger] ray_reaches_dir(v, fr, ff, dr, df, tr2, tf2)
                                    && !own_piece_at(v, piece.color, tr2, tf2) implies exists|
                                idx: int,
                            |
                                base <= idx < all_moves@.len() && (
                                #[trigger] all_moves@[idx]).spec_rank() == tr2
                                    && all_moves@[idx].spec_file() == tf2 by {
                                let k = choose|k: int|
                                    1 <= k < 8 && tr2 == fr + k * dr && tf2 == ff + k * df
                                        && in_bounds(tr2, tf2) && ray_clear(v, fr, ff, dr, df, k);
                                if k < kr {
                                    assert(v.at(fr + k * dr, ff + k * df) is None);
                                    let idx = choose|idx: int|
                                        base <= idx < pre.len() && (#[trigger] pre[idx]).spec_rank()
                                            == fr + k * dr && pre[idx].spec_file() == ff + k * df;
                                    assert(all_moves@[idx] == pre[idx]);
                                } else if k == kr {
                                    assert(other_piece.color == piece.color.spec_opposite());
                                    assert(all_moves@[all_moves@.len() - 1] == square);
                                } else {
                                    assert(ray_clear(v, fr, ff, dr, df, k));
                                    assert(v.at(fr + kr * dr, ff + kr * df) is None);
                                    assert(false);
                                }
                            }
                        }
                        return;
                    } else {
                        all_moves.push(square);
                        proof {
                            assert(ray_clear(v, fr, ff, dr, df, kr));
                            assert(all_moves@[all_moves@.len() - 1] == square);
                            assert(ray_reaches_dir(
                                v,
                                fr,
                                ff,
                                dr,
                                df,
                                square.spec_rank(),
                                square.spec_file(),
                            ));
                            lemma_coords_of_push(pre, square);
                            assert(ray_targets(v, piece.color, fr, ff, dr, df, kr) =~= seq![
                                (fr + kr * dr, ff + kr * df),
                            ] + ray_targets(v, piece.color, fr, ff, dr, df, kr + 1));
                            assert(coords_of(old(all_moves)@) + ray_targets(
                                v,
                                piece.color,
                                fr,
                                ff,
                                dr,
                                df,
                                1,
                            ) =~= coords_of(all_moves@) + ray_targets(
                                v,
                                piece.color,
                                fr,
                                ff,
                                dr,
                                df,
                                kr + 1,
                            ));
                            assert forall|k: int| 1 <= k < kr + 1 implies in_bounds(
                                fr + k * dr,
                                ff + k * df,
                            ) && (#[trigger] v.at(fr + k * dr, ff + k * df)) is None && (exists|
                                idx: int,
                            |
                                base <= idx < all_moves@.len() && (
                                #[trigger] all_moves@[idx]).spec_rank() == fr + k * dr
                                    && all_moves@[idx].spec_file() == ff + k * df) by {
                                if k < kr {
                                    let idx = choose|idx: int|
                                        base <= idx < pre.len() && (#[trigger] pre[idx]).spec_rank()
                                            == fr + k * dr && pre[idx].spec_file() == ff + k * df;
                                    assert(all_moves@[idx] == pre[idx]);
                                } else {
                                    assert(all_moves@[all_moves@.len() - 1] == square);
                                }
                            }
                        }
                    }
                },
                Err(_) => {
                    proof {
                        assert(!in_bounds(fr + kr * dr, ff + kr * df));
                        assert(ray_targets(v, piece.color, fr, ff, dr, df, kr)
                            =~= Seq::<(int, int)>::empty());
                        assert(coords_of(all_moves@) =~= coords_of(old(all_moves)@) + ray_targets(
                            v,
                            piece.color,
                            fr,
                            ff,
                            dr,
                            df,
                            1,
                        ));
                        assert forall|tr2: int, tf2: int|
                            #[trigger] ray_reaches_dir(v, fr, ff, dr, df, tr2, tf2)
                                && !own_piece_at(v, piece.color, tr2, tf2) implies exists|idx: int|
                            base <= idx < all_moves@.len() && (
                            #[trigger] all_moves@[idx]).spec_rank() == tr2
                                && all_moves@[idx].spec_file() == tf2 by {
                            let k = choose|k: int|
                                1 <= k < 8 && tr2 == fr + k * dr && tf2 == ff + k * df && in_bounds(
                                    tr2,
                                    tf2,
                                ) && ray_clear(v, fr, ff, dr, df, k);
                            if k < kr {
                                assert(v.at(fr + k * dr, ff + k * df) is None);
                            } else {
                                lemma_ray_monotone(fr, ff, dr, df, kr, k);
                                assert(false);
                            }
                        }
                    }
                    return;
                },
            }
        }
        proof {
            assert(ray_targets(v, piece.color, fr, ff, dr, df, 8) =~= Seq::<(int, int)>::empty());
            assert(coords_of(all_moves@) =~= coords_of(old(all_moves)@) + ray_targets(
                v,
                piece.color,
                fr,
                ff,
                dr,
                df,
                1,
            ));
            assert forall|tr2: int, tf2: int|
                #[trigger] ray_reaches_dir(v, fr, ff, dr, df, tr2, tf2) && !own_piece_at(
                    v,
                    piece.color,
                    tr2,
                    tf2,
                ) implies exists|idx: int|
                base <= idx < all_moves@.len() && (#[trigger] all_moves@[idx]).spec_rank() == tr2
                    && all_moves@[idx].spec_file() == tf2 by {
                let k = choose|k: int|
                    1 <= k < 8 && tr2 == fr + k * dr && tf2 == ff + k * df && in_bounds(tr2, tf2)
                        && ray_clear(v, fr, ff, dr, df, k);
                assert(v.at(fr + k * dr, ff + k * df) is None);
            }
        }
    }

    /// The squares a sliding piece on `from` may move to: along each of
    /// its rays, every empty square up to the first blocker, and the
    /// blocker itself when it holds an enemy piece.
    #[verifier::loop_isolation(false)]
    fn get_sliding_moves(&self, from: Square, piece: Piece) -> (all_moves: Vec<Square>)
        requires
            piece.piece_type == PieceType::Bishop || piece.piece_type == PieceType::Rook
                || piece.piece_type == PieceType::Queen,
        ensures
            forall|idx: int|
                0 <= idx < all_moves@.len() ==> ray_reaches(
                    self@,
                    piece.piece_type,
                    from.spec_rank(),
                    from.spec_file(),
                    (#[trigger] all_moves@[idx]).spec_rank(),
                    all_moves@[idx].spec_file(),
                ) && !own_piece_at(
                    self@,
                    piece.color,
                    all_moves@[idx].spec_rank(),
                    all_moves@[idx].spec_file(),
                ),
            forall|tr2: int, tf2: int|
                #[trigger] ray_reaches(
                    self@,
                    piece.piece_type,
                    from.spec_rank(),
                    from.spec_file(),
                    tr2,
                    tf2,
                ) && !own_piece_at(self@, piece.color, tr2, tf2) ==> exists|idx: int|
                    0 <= idx < all_moves@.len() && (#[trigger] all_moves@[idx]).spec_rank() == tr2
                        && all_moves@[idx].spec_file() == tf2,
            coords_of(all_moves@) == slide_targets(
                self@,
                piece.color,
                piece.piece_type,
                from.spec_rank(),
                from.spec_file(),
                spec_offsets(piece.piece_type).len() as int,
            ),
    {
        let ghost v = self@;
        let ghost fr = from.spec_rank();
        let ghost ff = from.spec_file();
        let mut all_moves: Vec<Square> = Vec::new();
        let offsets = piece.piece_type.get_offsets();
        proof {
            assert(coords_of(all_moves@)
                =~= slide_targets(v, piece.color, piece.piece_type, fr, ff, 0));
        }

        for i in 0..offsets.len()
            invariant
                forall|idx: int|
                    0 <= idx < all_moves@.len() ==> ray_reaches(
                        v,
                        piece.piece_type,
                        fr,
                        ff,
                        (#[trigger] all_moves@[idx]).spec_rank(),
                        all_moves@[idx].spec_file(),
                    ) && !own_piece_at(
                        v,
                        piece.color,
                        all_moves@[idx].spec_rank(),
                        all_moves@[idx].spec_file(),
                    ),
                forall|ii: int, tr2: int, tf2: int|
                    0 <= ii < i && #[trigger] ray_reaches_dir(
                        v,
                        fr,
                        ff,
                        offsets@[ii].0 as int,
                        offsets@[ii].1 as int,
                        tr2,
                        tf2,
                    ) && !own_piece_at(v, piece.color, tr2, tf2) ==> exists|idx: int|
                        0 <= idx < all_moves@.len() && (#[trigger] all_moves@[idx]).spec_rank()
                            == tr2 && all_moves@[idx].spec_file() == tf2,
                coords_of(all_moves@) == slide_targets(v, piece.color, piece.piece_type, fr, ff, i as int),
        {
            let (rank_offset, file_offset) = offsets[i];
            proof {
                lemma_slider_offset(piece.piece_type, i as int);
            }
            let ghost before = all_moves@;
            self.walk_ray_moves(from, rank_offset, file_offset, piece, &mut all_moves);
            proof {
                assert(coords_of(all_moves@) =~= slide_targets(
                    v,
                    piece.color,
                    piece.piece_type,
                    fr,
                    ff,
                    i as int + 1,
                ));
                assert forall|idx: int|
                    0 <= idx < all_moves@.len() implies ray_reaches(
                        v,
                        piece.piece_type,
                        fr,
                        ff,
                        (#[trigger] all_moves@[idx]).spec_rank(),
                        all_moves@[idx].spec_file(),
                    ) && !own_piece_at(
                        v,
                        piece.color,
                        all_moves@[idx].spec_rank(),
                        all_moves@[idx].spec_file(),
                    ) by {
                    if idx < before.len() {
                        assert(all_moves@[idx] == before[idx]);
                    } else {
                        assert(ray_reaches_dir(
                            v,
                            fr,
                            ff,
                            rank_offset as int,
                            file_offset as int,
                            all_moves@[idx].spec_rank(),
                            all_moves@[idx].spec_file(),
                        ));
                        assert(slide_dir(
                            piece.piece_type,
                            rank_offset as int,
                            file_offset as int,
                        ));
                    }
                }
            }
        }
        proof {
            assert forall|tr2: int, tf2: int|
                #[trigger] ray_reaches(v, piece.piece_type, fr, ff, tr2, tf2) && !own_piece_at(
                    v,
                    piece.color,
                    tr2,
                    tf2,
                ) implies exists|idx: int|
                0 <= idx < all_moves@.len() && (#[trigger] all_moves@[idx]).spec_rank() == tr2
                    && all_moves@[idx].spec_file() == tf2 by {
                let (dr, df) = choose|dr: int, df: int|
                    slide_dir(piece.piece_type, dr, df) && #[trigger] ray_reaches_dir(
                        v,
                        fr,
                        ff,
                        dr,
                        df,
                        tr2,
                        tf2,
                    );
                lemma_slide_dir_has_index(piece.piece_type, dr, df);
                let ii = choose|ii: int|
                    0 <= ii < spec_offsets(piece.piece_type).len() && (#[trigger] spec_offsets(
                        piece.piece_type,
                    )[ii]).0 == dr && spec_offsets(piece.piece_type)[ii].1 == df;
                assert(ray_reaches_dir(
                    v,
                    fr,
                    ff,
                    spec_offsets(piece.piece_type)[ii].0 as int,
                    spec_offsets(piece.piece_type)[ii].1 as int,
                    tr2,
                    tf2,
                ));
            }
        }
        all_moves
    }

    /// The sliding piece `piece` standing on `from` reaches `to` along one
    /// of its rays before any blocker.
    #[verifier::loop_isolation(false)]
    fn can_sliding_piece_reach(&self, from: Square, to: Square, piece: Piece) -> (r: bool)
        requires
            piece.piece_type == PieceType::Bishop || piece.piece_type == PieceType::Rook
                || piece.piece_type == PieceType::Queen,
        ensures
            r == ray_reaches(
                self@,
                piece.piece_type,
                from.spec_rank(),
                from.spec_file(),
                to.spec_rank(),
                to.spec_file(),
            ),
    {
        let ghost v = self@;
        let ghost fr = from.spec_rank();
        let ghost ff = from.spec_file();
        let ghost tr = to.spec_rank();
        let ghost tf = to.spec_file();
        let offsets = piece.piece_type.get_offsets();

        for i in 0..offsets.len()
            invariant
                forall|ii: int|
                    0 <= ii < i ==> !ray_reaches_dir(
                        v,
                        fr,
                        ff,
                        (#[trigger] offsets@[ii]).0 as int,
                        offsets@[ii].1 as int,
                        tr,
                        tf,
                    ),
        {
            let (rank_offset, file_offset) = offsets[i];
            proof {
                lemma_slider_offset(piece.piece_type, i as int);
            }
            if self.walk_ray(from, rank_offset, file_offset, to) {
                proof {
                    assert(ray_reaches(v, piece.piece_type, fr, ff, tr, tf));
                }
                return true;
            }
        }
        proof {
            assert(!ray_reaches(v, piece.piece_type, fr, ff, tr, tf)) by {
                if ray_reaches(v, piece.piece_type, fr, ff, tr, tf) {
                    let (dr, df) = choose|dr: int, df: int|
                        slide_dir(piece.piece_type, dr, df) && #[trigger] ray_reaches_dir(
                            v,
                            fr,
                            ff,
                            dr,
                            df,
                            tr,
                            tf,
                        );
                    lemma_slide_dir_has_index(piece.piece_type, dr, df);
                    let ii = choose|ii: int|
                        0 <= ii < spec_offsets(piece.piece_type).len() && (#[trigger] spec_offsets(
                            piece.piece_type,
                        )[ii]).0 == dr && spec_offsets(piece.piece_type)[ii].1 == df;
                    assert(!ray_reaches_dir(
                        v,
                        fr,
                        ff,
                        offsets@[ii].0 as int,
                        offsets@[ii].1 as int,
                        tr,
                        tf,
                    ));
                    assert(false);
                }
            };
        }
        false
    }

    /// The geometric destinations of the knight or king on `square`:
    /// each in-bounds step of its table not landing on an own piece, and
    /// for the king the available castle targets.
    #[verifier::loop_isolation(false)]
    #[verifier::rlimit(60)]
    fn get_step_moves(&self, square: Square, piece: Piece) -> (moves: Vec<Square>)
        requires
            piece.piece_type == PieceType::Knight || piece.piece_type == PieceType::King,
            self@.at(square.spec_rank(), square.spec_file()) == Some(piece),
        ensures
            forall|idx: int|
                0 <= idx < moves@.len() ==> unchecked_move(
                    self@,
                    square.spec_rank(),
                    square.spec_file(),
                    (#[trigger] moves@[idx]).spec_rank(),
                    moves@[idx].spec_file(),
                ),
            forall|tr: int, tf: int|
                #[trigger] unchecked_move(self@, square.spec_rank(), square.spec_file(), tr, tf)
                    ==> contains_coords(moves@, tr, tf),
            coords_of(moves@) == unchecked_targets(self@, square.spec_rank(), square.spec_file()),
    {
        broadcast use lemma_contains_coords_push, lemma_contains_coords_pushed, lemma_coords_of_push;

        proof {
            use_type_invariant(&square);
        }
        let ghost v = self@;
        let ghost fr = square.spec_rank();
        let ghost ff = square.spec_file();
            let offsets = piece.piece_type.get_offsets();
            let mut moves: Vec<Square> = Vec::new();
            for i in 0..offsets.len()
                invariant
                    forall|idx: int|
                        0 <= idx < moves@.len() ==> unchecked_move(
                            v,
                            fr,
                            ff,
                            (#[trigger] moves@[idx]).spec_rank(),
                            moves@[idx].spec_file(),
                        ),
                    forall|ii: int|
                        0 <= ii < i && in_bounds(
                            fr + (#[trigger] offsets@[ii]).0,
                            ff + offsets@[ii].1,
                        ) && !own_piece_at(
                            v,
                            piece.color,
                            fr + offsets@[ii].0,
                            ff + offsets@[ii].1,
                        ) ==> contains_coords(
                            moves@,
                            fr + offsets@[ii].0,
                            ff + offsets@[ii].1,
                        ),
                    coords_of(moves@) == step_targets(
                        v,
                        piece.color,
                        fr,
                        ff,
                        spec_offsets(piece.piece_type),
                        i as int,
                    ),
            {
                let (rank_offset, file_offset) = offsets[i];
                if let Ok(target) = square.offset(rank_offset, file_offset) {
                    let keep = match self.get_piece(target) {
                        // Can't capture own piece
                        Some(p) => p.color != piece.color,
                        None => true,
                    };
                    if keep {
                        proof {
                            if piece.piece_type == PieceType::Knight {
                                lemma_knight_offset(i as int);
                            } else {
                                lemma_king_offset(i as int);
                            }
                        }
                        moves.push(target);
                    }
                }
                proof {
                    assert(coords_of(moves@) =~= step_targets(
                        v,
                        piece.color,
                        fr,
                        ff,
                        spec_offsets(piece.piece_type),
                        i as int + 1,
                    ));
                }
            }

            if piece.piece_type == PieceType::King {
                let ghost m0 = moves@;
                let king_base_rank: u8 = if piece.color == Color::White {
                    0
                } else {
                    7
                };
                if self.can_king_side_castle(piece.color) {
                    if let Ok(move_square) = Square::new(king_base_rank, 6) {
                        moves.push(move_square);
                    }
                }
                proof {
                    assert(can_castle_king_side(v, piece.color) ==> contains_coords(
                        moves@,
                        castle_rank(piece.color),
                        6,
                    ));
                    assert forall|r2: int, f2: int|
                        contains_coords(m0, r2, f2) implies contains_coords(
                        moves@,
                        r2,
                        f2,
                    ) by {}
                    assert(coords_of(moves@) =~= step_targets(
                        v,
                        piece.color,
                        fr,
                        ff,
                        spec_offsets(PieceType::King),
                        8,
                    ) + target_if(
                        can_castle_king_side(v, piece.color),
                        castle_rank(piece.color),
                        6,
                    ));
                }
                let ghost m1 = moves@;
                if self.can_queen_side_castle(piece.color) {
                    if let Ok(move_square) = Square::new(king_base_rank, 2) {
                        moves.push(move_square);
                    }
                }
                proof {
                    assert(can_castle_queen_side(v, piece.color) ==> contains_coords(
                        moves@,
                        castle_rank(piece.color),
                        2,
                    ));
                    assert forall|r2: int, f2: int|
                        contains_coords(m1, r2, f2) implies contains_coords(
                        moves@,
                        r2,
                        f2,
                    ) by {}
                    assert(coords_of(moves@) =~= king_targets(v, piece.color, fr, ff));
                }
            }

            proof {
                assert forall|tr: int, tf: int|
                    #[trigger] unchecked_move(v, fr, ff, tr, tf) implies contains_coords(
                    moves@,
                    tr,
                    tf,
                ) by {
                    let is_step = if piece.piece_type == PieceType::Knight {
                        knight_jump(tr - fr, tf - ff)
                    } else {
                        king_step(tr - fr, tf - ff) && in_bounds(tr, tf) && !own_piece_at(
                            v,
                            piece.color,
                            tr,
                            tf,
                        )
                    };
                    if is_step {
                        if piece.piece_type == PieceType::Knight {
                            lemma_knight_jump_has_index(tr - fr, tf - ff);
                        } else {
                            lemma_king_step_has_index(tr - fr, tf - ff);
                        }
                        let ii = choose|ii: int|
                            0 <= ii < spec_offsets(piece.piece_type).len() && (
                            #[trigger] spec_offsets(piece.piece_type)[ii]).0 == tr - fr
                                && spec_offsets(piece.piece_type)[ii].1 == tf - ff;
                        assert(contains_coords(
                            moves@,
                            fr + spec_offsets(piece.piece_type)[ii].0,
                            ff + spec_offsets(piece.piece_type)[ii].1,
                        ));
                    }
                }
                assert(coords_of(moves@) == unchecked_targets(v, fr, ff));
            }
            moves
    }

    /// Append the pawn's diagonal capture toward `file_side`, when an
    /// enemy piece stands there.
    fn push_pawn_capture(
        &self,
        square: Square,
        piece: Piece,
        direction: i8,
        file_side: i8,
        all_moves: &mut Vec<Square>,
    )
        requires
            file_side == -1 || file_side == 1,
        ensures
            coords_of(final(all_moves)@) == coords_of(old(all_moves)@) + target_if(
                in_bounds(square.spec_rank() + direction, square.spec_file() + file_side) && (
                self@.at(square.spec_rank() + direction, square.spec_file() + file_side)
                    matches Some(q) && q.color == piece.color.spec_opposite()),
                square.spec_rank() + direction,
                square.spec_file() + file_side,
            ),
    {
        broadcast use lemma_coords_of_push;

        if let Ok(s) = square.offset(direction, file_side) {
            if let Some(p) = self.get_piece(s) {
                if p.color == piece.opposite_color() {
                    all_moves.push(s);
                }
            }
        }
        proof {
            assert(coords_of(all_moves@) =~= coords_of(old(all_moves)@) + target_if(
                in_bounds(square.spec_rank() + direction, square.spec_file() + file_side) && (
                self@.at(square.spec_rank() + direction, square.spec_file() + file_side)
                    matches Some(q) && q.color == piece.color.spec_opposite()),
                square.spec_rank() + direction,
                square.spec_file() + file_side,
            ));
        }
    }

    /// Append the pawn's single advance onto an empty square and, from the
    /// starting rank, its double advance over two empty squares.
    fn push_pawn_advances(
        &self,
        square: Square,
        piece: Piece,
        direction: i8,
        starting_rank: u8,
        all_moves: &mut Vec<Square>,
    )
        requires
            starting_rank as int == pawn_start_rank(piece.color),
        ensures
            coords_of(final(all_moves)@) == coords_of(old(all_moves)@) + target_if(
                in_bounds(square.spec_rank() + direction, square.spec_file()) && self@.at(
                    square.spec_rank() + direction,
                    square.spec_file(),
                ) is None,
                square.spec_rank() + direction,
                square.spec_file(),
            ) + target_if(
                in_bounds(square.spec_rank() + direction, square.spec_file()) && self@.at(
                    square.spec_rank() + direction,
                    square.spec_file(),
                ) is None && square.spec_rank() == pawn_start_rank(piece.color) && in_bounds(
                    square.spec_rank() + 2 * direction,
                    square.spec_file(),
                ) && self@.at(square.spec_rank() + 2 * direction, square.spec_file()) is None,
                square.spec_rank() + 2 * direction,
                square.spec_file(),
            ),
    {
        broadcast use lemma_coords_of_push;

        let ghost m0 = all_moves@;
        if let Ok(s1) = square.offset(direction, 0) {
            if self.get_piece(s1).is_none() {
                all_moves.push(s1);

                // Double move from starting position
                if square.rank() == starting_rank {
                    if let Ok(s2) = square.offset(2 * direction, 0) {
                        if self.get_piece(s2).is_none() {
                            all_moves.push(s2);
                        }
                    }
                }
            }
        }
        proof {
            assert(coords_of(all_moves@) =~= coords_of(m0) + target_if(
                in_bounds(square.spec_rank() + direction, square.spec_file()) && self@.at(
                    square.spec_rank() + direction,
                    square.spec_file(),
                ) is None,
                square.spec_rank() + direction,
                square.spec_file(),
            ) + target_if(
                in_bounds(square.spec_rank() + direction, square.spec_file()) && self@.at(
                    square.spec_rank() + direction,
                    square.spec_file(),
                ) is None && square.spec_rank() == pawn_start_rank(piece.color) && in_bounds(
                    square.spec_rank() + 2 * direction,
                    square.spec_file(),
                ) && self@.at(square.spec_rank() + 2 * direction, square.spec_file()) is None,
                square.spec_rank() + 2 * direction,
                square.spec_file(),
            ));
        }
    }

    /// Append the pawn's en-passant capture toward `file_side`, when the
    /// recorded window sits beside it with an enemy piece on it.
    fn push_pawn_en_passant(
        &self,
        square: Square,
        piece: Piece,
        direction: i8,
        file_side: i8,
        all_moves: &mut Vec<Square>,
    )
        requires
            file_side == -1 || file_side == 1,
            direction as int == pawn_dir(piece.color),
        ensures
            coords_of(final(all_moves)@) == coords_of(old(all_moves)@) + target_if(
                pawn_ep_move(
                    self@,
                    piece.color,
                    square.spec_rank(),
                    square.spec_file(),
                    square.spec_rank() + direction,
                    square.spec_file() + file_side,
                    file_side as int,
                ),
                square.spec_rank() + direction,
                square.spec_file() + file_side,
            ),
    {
        broadcast use lemma_coords_of_push;

        if let Some(passant) = self.en_passant {
            if let Ok(square_adjacent) = square.offset(0, file_side) {
                proof {
                    lemma_square_eq(square_adjacent, passant);
                }
                if square_adjacent == passant {
                    if let Some(passant_piece) = self.get_piece(square_adjacent) {
                        if passant_piece.color == piece.opposite_color() {
                            // opponent is on the en-passant square
                            if let Ok(s) = square.offset(direction, file_side) {
                                all_moves.push(s);
                            }
                        }
                    }
                }
            }
        }
        proof {
            assert(coords_of(all_moves@) =~= coords_of(old(all_moves)@) + target_if(
                pawn_ep_move(
                    self@,
                    piece.color,
                    square.spec_rank(),
                    square.spec_file(),
                    square.spec_rank() + direction,
                    square.spec_file() + file_side,
                    file_side as int,
                ),
                square.spec_rank() + direction,
                square.spec_file() + file_side,
            ));
        }
    }

    /// The geometric destinations of the pawn on `square`: diagonal
    /// captures, the single and double advance, and the en-passant
    /// captures, in that order.
    #[verifier::rlimit(60)]
    fn get_pawn_moves(&self, square: Square, piece: Piece) -> (moves: Vec<Square>)
        requires
            piece.piece_type == PieceType::Pawn,
            self@.at(square.spec_rank(), square.spec_file()) == Some(piece),
        ensures
            forall|idx: int|
                0 <= idx < moves@.len() ==> unchecked_move(
                    self@,
                    square.spec_rank(),
                    square.spec_file(),
                    (#[trigger] moves@[idx]).spec_rank(),
                    moves@[idx].spec_file(),
                ),
            forall|tr: int, tf: int|
                #[trigger] unchecked_move(self@, square.spec_rank(), square.spec_file(), tr, tf)
                    ==> contains_coords(moves@, tr, tf),
            coords_of(moves@) == unchecked_targets(self@, square.spec_rank(), square.spec_file()),
    {
        proof {
            use_type_invariant(&square);
        }
        let ghost v = self@;
        let ghost fr = square.spec_rank();
        let ghost ff = square.spec_file();
        let mut all_moves: Vec<Square> = Vec::new();
        let (direction, starting_rank): (i8, u8) = match piece.color {
            Color::White => (1, 1),
            Color::Black => (-1, 6),
        };
        let ghost dir = direction as int;

        // Diagonal captures only
        self.push_pawn_capture(square, piece, direction, -1, &mut all_moves);
        self.push_pawn_capture(square, piece, direction, 1, &mut all_moves);

        // Forward moves
        self.push_pawn_advances(square, piece, direction, starting_rank, &mut all_moves);

        // En passant rule
        self.push_pawn_en_passant(square, piece, direction, -1, &mut all_moves);
        self.push_pawn_en_passant(square, piece, direction, 1, &mut all_moves);

        proof {
            assert(coords_of(all_moves@) =~= pawn_targets(v, piece.color, fr, ff));
            assert(coords_of(all_moves@) == unchecked_targets(v, fr, ff));
            assert forall|idx: int| 0 <= idx < all_moves@.len() implies unchecked_move(
                v,
                fr,
                ff,
                (#[trigger] all_moves@[idx]).spec_rank(),
                all_moves@[idx].spec_file(),
            ) by {
                assert(pawn_targets(v, piece.color, fr, ff)[idx] == (
                    all_moves@[idx].spec_rank(),
                    all_moves@[idx].spec_file(),
                ));
                lemma_pawn_targets_iff(
                    v,
                    piece.color,
                    fr,
                    ff,
                    all_moves@[idx].spec_rank(),
                    all_moves@[idx].spec_file(),
                );
            }
            assert forall|tr: int, tf: int|
                #[trigger] unchecked_move(v, fr, ff, tr, tf) implies contains_coords(
                all_moves@,
                tr,
                tf,
            ) by {
                lemma_pawn_targets_iff(v, piece.color, fr, ff, tr, tf);
                let i = choose|i: int|
                    0 <= i < pawn_targets(v, piece.color, fr, ff).len() && pawn_targets(
                        v,
                        piece.color,
                        fr,
                        ff,
                    )[i] == (tr, tf);
                assert(coords_of(all_moves@)[i] == (tr, tf));
                assert(all_moves@[i].spec_rank() == tr && all_moves@[i].spec_file() == tf);
            }
        }
        all_moves
    }

    /// Every destination the piece on `square` may move to by geometry
    /// alone, ignoring whether its own king is left in check.
    fn get_all_unchecked_moves(&self, square: Square) -> (moves: Vec<Square>)
        ensures
            forall|idx: int|
                0 <= idx < moves@.len() ==> unchecked_move(
                    self@,
                    square.spec_rank(),
                    square.spec_file(),
                    (#[trigger] moves@[idx]).spec_rank(),
                    moves@[idx].spec_file(),
                ),
            forall|tr: int, tf: int|
                #[trigger] unchecked_move(self@, square.spec_rank(), square.spec_file(), tr, tf)
                    ==> contains_coords(moves@, tr, tf),
            coords_of(moves@) == unchecked_targets(self@, square.spec_rank(), square.spec_file()),
    {
        proof {
            use_type_invariant(&square);
        }
        let ghost v = self@;
        let ghost fr = square.spec_rank();
        let ghost ff = square.spec_file();

        let piece = match self.get_piece(square) {
            Some(p) => p,
            None => {
                let moves: Vec<Square> = Vec::new();
                proof {
                    assert(coords_of(moves@) =~= unchecked_targets(v, fr, ff));
                }
                return moves;
            },
        };

        match piece.piece_type {
            PieceType::Knight | PieceType::King => self.get_step_moves(square, piece),
            PieceType::Pawn => self.get_pawn_moves(square, piece),
            _ => {
                let moves = self.get_sliding_moves(square, piece);
                proof {
                    assert forall|tr: int, tf: int|
                        #[trigger] unchecked_move(v, fr, ff, tr, tf) implies contains_coords(
                        moves@,
                        tr,
                        tf,
                    ) by {
                        let idx = choose|idx: int|
                            0 <= idx < moves@.len() && (#[trigger] moves@[idx]).spec_rank() == tr
                                && moves@[idx].spec_file() == tf;
                    }
                    assert(coords_of(moves@) == unchecked_targets(v, fr, ff));
                }
                moves
            },
        }
    }

    /// King-side castling is available for `color`: the right is intact,
    /// the two squares between king and rook are empty, and no enemy
    /// piece bears on any of the three squares the king touches, so the
    /// king does not castle out of, through, or into check.
    fn can_king_side_castle(&self, color: Color) -> (r: bool)
        ensures
            r == can_castle_king_side(self@, color),
    {
        // If any of the pieces already moved: cannot castle
        if (color == Color::White && !self.castle_king_side_white) || (color == Color::Black
            && !self.castle_king_side_black) {
            return false;
        }
        let base: u8 = if color == Color::White {
            0
        } else {
            7
        };

        // If there is a piece between king and rook: cannot castle
        if self.get_piece(Square::new(base, 5).unwrap()).is_some() {
            return false;
        }
        if self.get_piece(Square::new(base, 6).unwrap()).is_some() {
            return false;
        }

        // If an enemy piece bears on a square the king stands on or
        // passes through - occupied or empty: cannot castle
        if self.is_square_covered(Square::new(base, 4).unwrap(), color) {
            return false;
        }
        if self.is_square_covered(Square::new(base, 5).unwrap(), color) {
            return false;
        }
        if self.is_square_covered(Square::new(base, 6).unwrap(), color) {
            return false;
        }

        true
    }

    /// Queen-side castling is available for `color`: the right is intact,
    /// the three squares between king and rook are empty, and no enemy
    /// piece bears on any of the three squares the king touches, so the
    /// king does not castle out of, through, or into check.
    fn can_queen_side_castle(&self, color: Color) -> (r: bool)
        ensures
            r == can_castle_queen_side(self@, color),
    {
        // If any of the pieces already moved: cannot castle
        if (color == Color::White && !self.castle_queen_side_white) || (color == Color::Black
            && !self.castle_queen_side_black) {
            return false;
        }
        let base: u8 = if color == Color::White {
            0
        } else {
            7
        };

        // If there is a piece between king and rook: cannot castle
        if self.get_piece(Square::new(base, 1).unwrap()).is_some() {
            return false;
        }
        if self.get_piece(Square::new(base, 2).unwrap()).is_some() {
            return false;
        }
        if self.get_piece(Square::new(base, 3).unwrap()).is_some() {
            return false;
        }

        // If an enemy piece bears on a square the king stands on or
        // passes through - occupied or empty: cannot castle
        if self.is_square_covered(Square::new(base, 2).unwrap(), color) {
            return false;
        }
        if self.is_square_covered(Square::new(base, 3).unwrap(), color) {
            return false;
        }
        if self.is_square_covered(Square::new(base, 4).unwrap(), color) {
            return false;
        }

        true
    }

    /// Every legal move of the piece on `square`: the geometric
    /// candidates, in generation order, filtered to those whose simulated
    /// application leaves the mover's own king out of check. The result is
    /// pinned down to the exact sequence `valid_targets`; membership both
    /// ways is stated separately as well. This single simulate-and-test
    /// pass is the sole legality gate; it covers pins, discovered checks
    /// and castling into check.
    #[verifier::loop_isolation(false)]
    pub fn get_valid_moves(&self, square: Square) -> (valid_moves: Vec<Square>)
        ensures
            forall|idx: int|
                0 <= idx < valid_moves@.len() ==> valid_move(
                    self@,
                    square.spec_rank(),
                    square.spec_file(),
                    (#[trigger] valid_moves@[idx]).spec_rank(),
                    valid_moves@[idx].spec_file(),
                ),
            forall|tr: int, tf: int|
                #[trigger] valid_move(self@, square.spec_rank(), square.spec_file(), tr, tf)
                    ==> contains_coords(valid_moves@, tr, tf),
            coords_of(valid_moves@) == valid_targets(
                self@,
                square.spec_rank(),
                square.spec_file(),
            ),
    {
        broadcast use lemma_contains_coords_push, lemma_contains_coords_pushed, lemma_coords_of_push;

        let ghost v = self@;
        let ghost fr = square.spec_rank();
        let ghost ff = square.spec_file();

        let piece = match self.get_piece(square) {
            Some(p) => p,
            None => {
                let valid_moves: Vec<Square> = Vec::new();
                proof {
                    assert(coords_of(valid_moves@) =~= valid_targets(v, fr, ff));
                }
                return valid_moves;
            },
        };

        let mut valid_moves: Vec<Square> = Vec::new();
        let unchecked_moves: Vec<Square> = self.get_all_unchecked_moves(square);
        let ghost ut = unchecked_targets(v, fr, ff);
        proof {
            assert(coords_of(valid_moves@) =~= filter_valid(v, fr, ff, ut.take(0)));
        }
        for i in 0..unchecked_moves.len()
            invariant
                forall|idx: int|
                    0 <= idx < valid_moves@.len() ==> valid_move(
                        v,
                        fr,
                        ff,
                        (#[trigger] valid_moves@[idx]).spec_rank(),
                        valid_moves@[idx].spec_file(),
                    ),
                forall|ii: int|
                    0 <= ii < i && valid_move(
                        v,
                        fr,
                        ff,
                        (#[trigger] unchecked_moves@[ii]).spec_rank(),
                        unchecked_moves@[ii].spec_file(),
                    ) ==> contains_coords(
                        valid_moves@,
                        unchecked_moves@[ii].spec_rank(),
                        unchecked_moves@[ii].spec_file(),
                    ),
                coords_of(valid_moves@) == filter_valid(v, fr, ff, ut.take(i as int)),
        {
            let new_square = unchecked_moves[i];
            let mut new_board = self.clone();
            new_board.make_move(square, new_square);

            if !new_board.is_king_in_check(piece.color) {
                valid_moves.push(new_square);
            }
            proof {
                assert(coords_of(unchecked_moves@)[i as int] == ut[i as int]);
                assert(ut[i as int] == (new_square.spec_rank(), new_square.spec_file()));
                assert(ut.take(i as int + 1).drop_last() =~= ut.take(i as int));
                assert(ut.take(i as int + 1).last() == ut[i as int]);
                assert(coords_of(valid_moves@) =~= filter_valid(v, fr, ff, ut.take(i as int + 1)));
            }
        }

        proof {
            assert(ut.take(unchecked_moves@.len() as int) =~= ut);
            assert(coords_of(valid_moves@) == valid_targets(v, fr, ff));
        }

        proof {
            assert forall|tr: int, tf: int|
                #[trigger] valid_move(v, fr, ff, tr, tf) implies contains_coords(
                valid_moves@,
                tr,
                tf,
            ) by {
                assert(unchecked_move(v, fr, ff, tr, tf));
                let ii = choose|ii: int|
                    0 <= ii < unchecked_moves@.len() && (
                    #[trigger] unchecked_moves@[ii]).spec_rank() == tr
                        && unchecked_moves@[ii].spec_file() == tf;
            }
        }
        valid_moves
    }

    /// `color` is checkmated: its king is in check and none of its pieces
    /// has a legal move.
    #[verifier::loop_isolation(false)]
    pub fn is_checkmated(&self, color: Color) -> (r: bool)
        ensures
            r == checkmated(self@, color),
    {
        let ghost v = self@;
        if !self.is_king_in_check(color) {
            return false;
        }

        let squares = self.get_all_color_squares(color);
        for i in 0..squares.len()
            invariant
                forall|ii: int, tr: int, tf: int|
                    0 <= ii < i ==> !(#[trigger] valid_move(
                        v,
                        squares@[ii].spec_rank(),
                        squares@[ii].spec_file(),
                        tr,
                        tf,
                    )),
        {
            let sq = squares[i];
            let moves = self.get_valid_moves(sq);
            if moves.len() > 0 {
                proof {
                    use_type_invariant(&sq);
                    let tr = moves@[0].spec_rank();
                    let tf = moves@[0].spec_file();
                    assert(valid_move(v, sq.spec_rank(), sq.spec_file(), tr, tf));
                    lemma_unchecked_in_bounds(v, sq.spec_rank(), sq.spec_file(), tr, tf);
                    assert(side_has_move(v, color));
                }
                return false;
            }
            proof {
                assert forall|tr: int, tf: int|
                    !valid_move(v, sq.spec_rank(), sq.spec_file(), tr, tf) by {
                    if valid_move(v, sq.spec_rank(), sq.spec_file(), tr, tf) {
                        assert(contains_coords(moves@, tr, tf));
                    }
                }
            }
        }

        proof {
            assert(!side_has_move(v, color)) by {
                if side_has_move(v, color) {
                    let (sfr, sff, str_, stf) = choose|sfr: int, sff: int, str_: int, stf: int|
                        in_bounds(sfr, sff) && in_bounds(str_, stf) && own_piece_at(
                            v,
                            color,
                            sfr,
                            sff,
                        ) && #[trigger] valid_move(v, sfr, sff, str_, stf);
                    assert(contains_coords(squares@, sfr, sff));
                    let ii = choose|ii: int|
                        0 <= ii < squares@.len() && (#[trigger] squares@[ii]).spec_rank() == sfr
                            && squares@[ii].spec_file() == sff;
                    assert(false);
                }
            };
        }
        true
    }

    /// `color` is stalemated: its king is not in check and none of its
    /// pieces has a legal move.
    #[verifier::loop_isolation(false)]
    pub fn is_stalemate(&self, color: Color) -> (r: bool)
        ensures
            r == stalemated(self@, color),
    {
        let ghost v = self@;
        if self.is_king_in_check(color) {
            return false;
        }

        let squares = self.get_all_color_squares(color);
        for i in 0..squares.len()
            invariant
                forall|ii: int, tr: int, tf: int|
                    0 <= ii < i ==> !(#[trigger] valid_move(
                        v,
                        squares@[ii].spec_rank(),
                        squares@[ii].spec_file(),
                        tr,
                        tf,
                    )),
        {
            let sq = squares[i];
            let moves = self.get_valid_moves(sq);
            if moves.len() > 0 {
                proof {
                    use_type_invariant(&sq);
                    let tr = moves@[0].spec_rank();
                    let tf = moves@[0].spec_file();
                    assert(valid_move(v, sq.spec_rank(), sq.spec_file(), tr, tf));
                    lemma_unchecked_in_bounds(v, sq.spec_rank(), sq.spec_file(), tr, tf);
                    assert(side_has_move(v, color));
                }
                return false;
            }
            proof {
                assert forall|tr: int, tf: int|
                    !valid_move(v, sq.spec_rank(), sq.spec_file(), tr, tf) by {
                    if valid_move(v, sq.spec_rank(), sq.spec_file(), tr, tf) {
                        assert(contains_coords(moves@, tr, tf));
                    }
                }
            }
        }

        proof {
            assert(!side_has_move(v, color)) by {
                if side_has_move(v, color) {
                    let (sfr, sff, str_, stf) = choose|sfr: int, sff: int, str_: int, stf: int|
                        in_bounds(sfr, sff) && in_bounds(str_, stf) && own_piece_at(
                            v,
                            color,
                            sfr,
                            sff,
                        ) && #[trigger] valid_move(v, sfr, sff, str_, stf);
                    assert(contains_coords(squares@, sfr, sff));
                    let ii = choose|ii: int|
                        0 <= ii < squares@.len() && (#[trigger] squares@[ii]).spec_rank() == sfr
                            && squares@[ii].spec_file() == sff;
                    assert(false);
                }
            };
        }
        true
    }

    /// The first square of the promotion scan holding a pawn: rank 0 is
    /// walked, then rank 7. At most one such square is expected at a time
    /// by design.
    #[verifier::loop_isolation(false)]
    pub fn get_promotion_square(&self) -> (r: Option<Square>)
        ensures
            match r {
                Some(s) => is_promotion_square(self@, s.spec_rank(), s.spec_file()),
                None => !has_promotion_square(self@),
            },
    {
        let ghost v = self@;
        for file in 0..8u8
            invariant
                forall|f2: int| 0 <= f2 < file ==> !(#[trigger] is_promo_candidate(v, 0, f2)),
        {
            let square = Square::new(0, file).unwrap();
            if let Some(piece) = self.get_piece(square) {
                if piece.piece_type == PieceType::Pawn {
                    return Some(square);
                }
            }
        }
        for file in 0..8u8
            invariant
                forall|f2: int| 0 <= f2 < 8 ==> !(#[trigger] is_promo_candidate(v, 0, f2)),
                forall|f2: int| 0 <= f2 < file ==> !(#[trigger] is_promo_candidate(v, 7, f2)),
        {
            let square = Square::new(7, file).unwrap();
            if let Some(piece) = self.get_piece(square) {
                if piece.piece_type == PieceType::Pawn {
                    return Some(square);
                }
            }
        }

        proof {
            assert(!has_promotion_square(v)) by {
                if has_promotion_square(v) {
                    let (r2, f2) = choose|r2: int, f2: int| #[trigger] is_promo_candidate(
                        v,
                        r2,
                        f2,
                    );
                    assert(false);
                }
            };
        }
        None
    }

    /// Replace the type of the piece on `square` with `promote_to`,
    /// preserving its color; an empty square is left untouched.
    pub fn promote_square(&mut self, square: Square, promote_to: PieceType)
        ensures
            final(self)@ == match old(self)@.at(square.spec_rank(), square.spec_file()) {
                Some(p) => old(self)@.set_at(
                    square.spec_rank(),
                    square.spec_file(),
                    Some(Piece { color: p.color, piece_type: promote_to }),
                ),
                None => old(self)@,
            },
    {
        if let Some(mut piece) = self.get_piece(square) {
            piece.promote_to(promote_to);
            self.set_piece(square, Some(piece));
        }
    }

    /// Every square holding a piece of `color`, in rank-major order.
    #[verifier::loop_isolation(false)]
    fn get_all_color_squares(&self, color: Color) -> (all: Vec<Square>)
        ensures
            forall|idx: int|
                0 <= idx < all@.len() ==> in_bounds(
                    (#[trigger] all@[idx]).spec_rank(),
                    all@[idx].spec_file(),
                ) && own_piece_at(self@, color, all@[idx].spec_rank(), all@[idx].spec_file()),
            forall|r2: int, f2: int|
                in_bounds(r2, f2) && #[trigger] own_piece_at(self@, color, r2, f2)
                    ==> contains_coords(all@, r2, f2),
    {
        broadcast use lemma_contains_coords_push, lemma_contains_coords_pushed;

        let ghost v = self@;
        let mut all: Vec<Square> = Vec::new();
        for rank in 0..8u8
            invariant
                forall|idx: int|
                    0 <= idx < all@.len() ==> in_bounds(
                        (#[trigger] all@[idx]).spec_rank(),
                        all@[idx].spec_file(),
                    ) && own_piece_at(v, color, all@[idx].spec_rank(), all@[idx].spec_file()),
                forall|r2: int, f2: int|
                    0 <= r2 < rank && 0 <= f2 < 8 && #[trigger] own_piece_at(v, color, r2, f2)
                        ==> contains_coords(all@, r2, f2),
        {
            for file in 0..8u8
                invariant
                    forall|idx: int|
                        0 <= idx < all@.len() ==> in_bounds(
                            (#[trigger] all@[idx]).spec_rank(),
                            all@[idx].spec_file(),
                        ) && own_piece_at(v, color, all@[idx].spec_rank(), all@[idx].spec_file()),
                    forall|r2: int, f2: int|
                        0 <= r2 < rank && 0 <= f2 < 8 && #[trigger] own_piece_at(v, color, r2, f2)
                            ==> contains_coords(all@, r2, f2),
                    forall|f2: int|
                        0 <= f2 < file && #[trigger] own_piece_at(v, color, rank as int, f2)
                            ==> contains_coords(all@, rank as int, f2),
            {
                if let Ok(square) = Square::new(rank, file) {
                    if let Some(piece) = self.get_piece(square) {
                        if piece.color == color {
                            all.push(square);
                        }
                    }
                }
            }
        }
        all
    }
}

} // verus!

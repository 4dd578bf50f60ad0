//! The mathematical model of the chess rules.
//!
//! `BoardView` is the value of a board: an 8 by 8 grid of optional pieces,
//! the en-passant target and the four castling-rights flags. Every spec
//! function here is pure mathematics over that value; the executable
//! methods of `Board` promise, in their contracts, to agree with them.

use crate::piece::{spec_offsets, Color, Piece, PieceType};
use vstd::prelude::*;

verus! {

/// The value of a board: `grid[rank][file]` is the piece standing on that
/// square, if any.
#[verifier::ext_equal]
pub struct BoardView {
    pub grid: Seq<Seq<Option<Piece>>>,
    pub en_passant: Option<(int, int)>,
    pub castle_king_side_white: bool,
    pub castle_queen_side_white: bool,
    pub castle_king_side_black: bool,
    pub castle_queen_side_black: bool,
}

/// (r, f) lies on the board.
pub open spec fn in_bounds(r: int, f: int) -> bool {
    0 <= r < 8 && 0 <= f < 8
}

impl BoardView {
    /// The grid is 8 by 8.
    pub open spec fn wf(self) -> bool {
        self.grid.len() == 8 && (forall|r: int|
            0 <= r < 8 ==> (#[trigger] self.grid[r]).len() == 8)
    }

    /// The piece standing on (r, f).
    pub open spec fn at(self, r: int, f: int) -> Option<Piece> {
        self.grid[r][f]
    }

    /// The same board with (r, f) holding `p` instead.
    pub open spec fn set_at(self, r: int, f: int, p: Option<Piece>) -> BoardView {
        BoardView { grid: self.grid.update(r, self.grid[r].update(f, p)), ..self }
    }
}

/// A piece of color `c` stands on (r, f).
pub open spec fn own_piece_at(v: BoardView, c: Color, r: int, f: int) -> bool {
    v.at(r, f) matches Some(q) && q.color == c
}

/// The relative move of a knight.
pub open spec fn knight_jump(dr: int, df: int) -> bool {
    ||| (dr == -2 && df == -1)
    ||| (dr == -2 && df == 1)
    ||| (dr == -1 && df == -2)
    ||| (dr == -1 && df == 2)
    ||| (dr == 1 && df == -2)
    ||| (dr == 1 && df == 2)
    ||| (dr == 2 && df == -1)
    ||| (dr == 2 && df == 1)
}

/// The relative move of a king: one step in any of the eight directions.
pub open spec fn king_step(dr: int, df: int) -> bool {
    -1 <= dr <= 1 && -1 <= df <= 1 && !(dr == 0 && df == 0)
}

/// (dr, df) is a unit direction along which this piece kind slides.
pub open spec fn slide_dir(t: PieceType, dr: int, df: int) -> bool {
    match t {
        PieceType::Bishop => (dr == -1 || dr == 1) && (df == -1 || df == 1),
        PieceType::Rook => (dr == -1 && df == 0) || (dr == 0 && df == -1) || (dr == 0 && df == 1)
            || (dr == 1 && df == 0),
        PieceType::Queen => king_step(dr, df),
        _ => false,
    }
}

/// The squares strictly between (fr, ff) and (fr + k*dr, ff + k*df) along
/// the ray are all empty.
pub open spec fn ray_clear(v: BoardView, fr: int, ff: int, dr: int, df: int, k: int) -> bool {
    forall|j: int| 1 <= j < k ==> (#[trigger] v.at(fr + j * dr, ff + j * df)) is None
}

/// Walking from (fr, ff) in direction (dr, df) reaches (tr, tf): the
/// target lies on the ray, on the board, and every square strictly before
/// it on the ray is empty. Nothing is said about the target square itself;
/// it is the first square on the ray that may be occupied.
pub open spec fn ray_reaches_dir(
    v: BoardView,
    fr: int,
    ff: int,
    dr: int,
    df: int,
    tr: int,
    tf: int,
) -> bool {
    exists|k: int|
        1 <= k < 8 && tr == fr + k * dr && tf == ff + k * df && in_bounds(tr, tf) && #[trigger]
        ray_clear(v, fr, ff, dr, df, k)
}

/// A slider of kind `t` standing on (fr, ff) reaches (tr, tf) along one of
/// its directions.
pub open spec fn ray_reaches(
    v: BoardView,
    t: PieceType,
    fr: int,
    ff: int,
    tr: int,
    tf: int,
) -> bool {
    exists|dr: int, df: int|
        slide_dir(t, dr, df) && #[trigger] ray_reaches_dir(v, fr, ff, dr, df, tr, tf)
}

/// The forward direction of a pawn.
pub open spec fn pawn_dir(c: Color) -> int {
    if c == Color::White {
        1int
    } else {
        -1int
    }
}

/// The rank a pawn starts on, from which it may advance two squares.
pub open spec fn pawn_start_rank(c: Color) -> int {
    if c == Color::White {
        1int
    } else {
        6int
    }
}

/// The home rank of a color's king and rooks.
pub open spec fn castle_rank(c: Color) -> int {
    if c == Color::White {
        0int
    } else {
        7int
    }
}

/// The piece on (fr, ff) bears on (tr, tf) by its geometry alone,
/// regardless of what stands on the target: a knight jump, a king step,
/// one of a pawn's two diagonal-forward squares, or a slider ray that is
/// clear up to the target.
pub open spec fn covers(v: BoardView, fr: int, ff: int, tr: int, tf: int) -> bool {
    match v.at(fr, ff) {
        Some(p) => match p.piece_type {
            PieceType::Knight => knight_jump(tr - fr, tf - ff),
            PieceType::King => king_step(tr - fr, tf - ff),
            PieceType::Pawn => tr == fr + pawn_dir(p.color) && (tf == ff - 1 || tf == ff + 1),
            _ => ray_reaches(v, p.piece_type, fr, ff, tr, tf),
        },
        None => false,
    }
}

/// The piece on (fr, ff) attacks the occupied square (tr, tf): the two
/// pieces have opposite colors and the attacker's geometry bears on the
/// target.
pub open spec fn attacks(v: BoardView, fr: int, ff: int, tr: int, tf: int) -> bool {
    match (v.at(fr, ff), v.at(tr, tf)) {
        (Some(p), Some(q)) => q.color == p.color.spec_opposite() && covers(v, fr, ff, tr, tf),
        _ => false,
    }
}

/// A piece of the color opposing `color` stands on (ar, af) and attacks
/// (r, f).
pub open spec fn attacker_at(v: BoardView, ar: int, af: int, r: int, f: int, color: Color) -> bool {
    attacks(v, ar, af, r, f) && (v.at(ar, af) matches Some(p) && p.color == color.spec_opposite())
}

/// Some piece of the color opposing `color` attacks (r, f). An empty
/// square is attacked by nobody, since an attack needs an occupied target.
pub open spec fn square_attacked(v: BoardView, r: int, f: int, color: Color) -> bool {
    exists|ar: int, af: int| in_bounds(ar, af) && #[trigger] attacker_at(v, ar, af, r, f, color)
}

/// A piece of the color opposing `color` stands on (ar, af) and bears on
/// (r, f), whether or not anything stands there.
pub open spec fn covering_enemy_at(
    v: BoardView,
    ar: int,
    af: int,
    r: int,
    f: int,
    color: Color,
) -> bool {
    (v.at(ar, af) matches Some(p) && p.color == color.spec_opposite()) && covers(v, ar, af, r, f)
}

/// Some piece of the color opposing `color` bears on (r, f). Unlike
/// `square_attacked`, this counts empty squares too; it is the notion a
/// king in transit must care about.
pub open spec fn square_covered(v: BoardView, r: int, f: int, color: Color) -> bool {
    exists|ar: int, af: int|
        in_bounds(ar, af) && #[trigger] covering_enemy_at(v, ar, af, r, f, color)
}

/// A king of `color` stands on (r, f).
pub open spec fn is_king_at(v: BoardView, color: Color, r: int, f: int) -> bool {
    in_bounds(r, f) && (v.at(r, f) matches Some(p) && p.piece_type == PieceType::King && p.color
        == color)
}

/// (r1, f1) comes before (r2, f2) in a rank-major scan of the board.
pub open spec fn scan_before(r1: int, f1: int, r2: int, f2: int) -> bool {
    r1 < r2 || (r1 == r2 && f1 < f2)
}

/// (r, f) holds the first king of `color` in scan order.
pub open spec fn is_first_king(v: BoardView, color: Color, r: int, f: int) -> bool {
    is_king_at(v, color, r, f) && (forall|r2: int, f2: int|
        scan_before(r2, f2, r, f) ==> !(#[trigger] is_king_at(v, color, r2, f2)))
}

/// The board holds at least one king of `color`.
pub open spec fn has_king(v: BoardView, color: Color) -> bool {
    exists|r: int, f: int| #[trigger] is_king_at(v, color, r, f)
}

/// The king of `color` is in check. A missing king counts as in check;
/// with several kings, the first in scan order decides, as the scan does.
pub open spec fn king_in_check(v: BoardView, color: Color) -> bool {
    if has_king(v, color) {
        exists|r: int, f: int|
            #[trigger] is_first_king(v, color, r, f) && square_attacked(v, r, f, color)
    } else {
        true
    }
}

/// King-side castling is available: the right is intact, the two squares
/// between king and rook are empty, and no enemy piece bears on any of
/// the three squares the king touches — the empty transit squares
/// included, so the king cannot castle through check.
pub open spec fn can_castle_king_side(v: BoardView, color: Color) -> bool {
    let base = castle_rank(color);
    &&& if color == Color::White {
        v.castle_king_side_white
    } else {
        v.castle_king_side_black
    }
    &&& v.at(base, 5) is None
    &&& v.at(base, 6) is None
    &&& !square_covered(v, base, 4, color)
    &&& !square_covered(v, base, 5, color)
    &&& !square_covered(v, base, 6, color)
}

/// Queen-side castling is available: the right is intact, the three squares
/// between king and rook are empty, and no enemy piece bears on any of
/// the three squares the king touches — the empty transit squares
/// included, so the king cannot castle through check.
pub open spec fn can_castle_queen_side(v: BoardView, color: Color) -> bool {
    let base = castle_rank(color);
    &&& if color == Color::White {
        v.castle_queen_side_white
    } else {
        v.castle_queen_side_black
    }
    &&& v.at(base, 1) is None
    &&& v.at(base, 2) is None
    &&& v.at(base, 3) is None
    &&& !square_covered(v, base, 2, color)
    &&& !square_covered(v, base, 3, color)
    &&& !square_covered(v, base, 4, color)
}

/// A pawn of color `c` on (fr, ff) may move to the en-passant destination
/// diagonally over the enemy pawn that sits beside it on (fr, ff + o).
pub open spec fn pawn_ep_move(
    v: BoardView,
    c: Color,
    fr: int,
    ff: int,
    tr: int,
    tf: int,
    o: int,
) -> bool {
    &&& in_bounds(fr, ff + o)
    &&& v.en_passant == Some((fr, ff + o))
    &&& (v.at(fr, ff + o) matches Some(q) && q.color == c.spec_opposite())
    &&& tr == fr + pawn_dir(c)
    &&& tf == ff + o
    &&& in_bounds(tr, tf)
}

/// A pawn of color `c` on (fr, ff) may move to (tr, tf), ignoring
/// self-check: a diagonal capture, a single or double advance onto empty
/// squares, or an en-passant capture.
pub open spec fn pawn_move(v: BoardView, c: Color, fr: int, ff: int, tr: int, tf: int) -> bool {
    let dir = pawn_dir(c);
    ||| (tr == fr + dir && (tf == ff - 1 || tf == ff + 1) && in_bounds(tr, tf) && (v.at(tr, tf)
        matches Some(q) && q.color == c.spec_opposite()))
    ||| (tr == fr + dir && tf == ff && in_bounds(tr, tf) && v.at(tr, tf) is None)
    ||| (fr == pawn_start_rank(c) && tr == fr + 2 * dir && tf == ff && in_bounds(fr + dir, ff)
        && v.at(fr + dir, ff) is None && in_bounds(tr, tf) && v.at(tr, tf) is None)
    ||| pawn_ep_move(v, c, fr, ff, tr, tf, -1)
    ||| pawn_ep_move(v, c, fr, ff, tr, tf, 1)
}

/// The piece on (fr, ff) may move to (tr, tf) by geometry alone, ignoring
/// whether its own king is left in check.
pub open spec fn unchecked_move(v: BoardView, fr: int, ff: int, tr: int, tf: int) -> bool {
    v.at(fr, ff) matches Some(p) && match p.piece_type {
        PieceType::Knight => knight_jump(tr - fr, tf - ff) && in_bounds(tr, tf) && !own_piece_at(
            v,
            p.color,
            tr,
            tf,
        ),
        PieceType::King => (king_step(tr - fr, tf - ff) && in_bounds(tr, tf) && !own_piece_at(
            v,
            p.color,
            tr,
            tf,
        )) || (can_castle_king_side(v, p.color) && tr == castle_rank(p.color) && tf == 6) || (
        can_castle_queen_side(v, p.color) && tr == castle_rank(p.color) && tf == 2),
        PieceType::Pawn => pawn_move(v, p.color, fr, ff, tr, tf),
        _ => ray_reaches(v, p.piece_type, fr, ff, tr, tf) && !own_piece_at(v, p.color, tr, tf),
    }
}

/// The move is a castle: a king moving two files from its home square.
pub open spec fn is_castle_move(p: Piece, fr: int, ff: int, tr: int, tf: int) -> bool {
    p.piece_type == PieceType::King && ((fr == 0 && ff == 4 && tr == 0 && (tf == 2 || tf == 6))
        || (fr == 7 && ff == 4 && tr == 7 && (tf == 2 || tf == 6)))
}

/// Relocate the corner rook that belongs to the castle destination of the
/// king: whatever stands on the corner moves to the square beside the king.
pub open spec fn move_castle_rook(v: BoardView, tr: int, tf: int) -> BoardView {
    if tr == 0 && tf == 2 {
        v.set_at(0, 3, v.at(0, 0)).set_at(0, 0, None)
    } else if tr == 0 && tf == 6 {
        v.set_at(0, 5, v.at(0, 7)).set_at(0, 7, None)
    } else if tr == 7 && tf == 2 {
        v.set_at(7, 3, v.at(7, 0)).set_at(7, 0, None)
    } else if tr == 7 && tf == 6 {
        v.set_at(7, 5, v.at(7, 7)).set_at(7, 7, None)
    } else {
        v
    }
}

/// Remove the pawn captured en passant: when a pawn lands one step beyond
/// the recorded en-passant square, the piece on that square is taken.
pub open spec fn apply_en_passant_capture(
    v: BoardView,
    p: Piece,
    ep: Option<(int, int)>,
    tr: int,
    tf: int,
) -> BoardView {
    match ep {
        Some(e) => if p.piece_type == PieceType::Pawn && in_bounds(e.0 + pawn_dir(p.color), e.1)
            && tr == e.0 + pawn_dir(p.color) && tf == e.1 {
            v.set_at(e.0, e.1, None)
        } else {
            v
        },
        None => v,
    }
}

/// Revoke the castling rights tied to the piece that left (fr, ff): a king
/// move clears both of its color's rights, a rook move from a home corner
/// clears that corner's right.
pub open spec fn update_castle_rights(v: BoardView, p: Piece, fr: int, ff: int) -> BoardView {
    let v1 = if p.piece_type == PieceType::King {
        if p.color == Color::Black {
            BoardView { castle_king_side_black: false, castle_queen_side_black: false, ..v }
        } else {
            BoardView { castle_king_side_white: false, castle_queen_side_white: false, ..v }
        }
    } else {
        v
    };
    if p.piece_type == PieceType::Rook {
        if fr == 0 && ff == 0 {
            BoardView { castle_queen_side_white: false, ..v1 }
        } else if fr == 0 && ff == 7 {
            BoardView { castle_king_side_white: false, ..v1 }
        } else if fr == 7 && ff == 0 {
            BoardView { castle_queen_side_black: false, ..v1 }
        } else if fr == 7 && ff == 7 {
            BoardView { castle_king_side_black: false, ..v1 }
        } else {
            v1
        }
    } else {
        v1
    }
}

/// The en-passant target after a move: the landing square of a pawn that
/// just advanced two ranks from its starting rank, and nothing otherwise.
pub open spec fn new_en_passant(p: Piece, fr: int, tr: int, tf: int) -> Option<(int, int)> {
    if p.piece_type == PieceType::Pawn && ((p.color == Color::White && fr == 1 && tr == 3) || (
    p.color == Color::Black && fr == 6 && tr == 4)) {
        Some((tr, tf))
    } else {
        None
    }
}

/// The board after moving the piece on (fr, ff) to (tr, tf): relocate the
/// piece, take a pawn en passant, bring the rook along on a castle, revoke
/// the spent castling rights, and re-arm or clear the en-passant target.
/// An empty source square leaves the board unchanged.
pub open spec fn apply_move(v: BoardView, fr: int, ff: int, tr: int, tf: int) -> BoardView {
    match v.at(fr, ff) {
        None => v,
        Some(p) => {
            let moved = v.set_at(tr, tf, Some(p)).set_at(fr, ff, None);
            let after_ep = apply_en_passant_capture(moved, p, v.en_passant, tr, tf);
            let after_castle = if is_castle_move(p, fr, ff, tr, tf) {
                move_castle_rook(after_ep, tr, tf)
            } else {
                after_ep
            };
            let after_rights = update_castle_rights(after_castle, p, fr, ff);
            BoardView { en_passant: new_en_passant(p, fr, tr, tf), ..after_rights }
        },
    }
}

/// The piece on (fr, ff) may legally move to (tr, tf): the move is
/// geometrically possible and, once applied, does not leave the mover's
/// own king in check.
pub open spec fn valid_move(v: BoardView, fr: int, ff: int, tr: int, tf: int) -> bool {
    v.at(fr, ff) matches Some(p) && unchecked_move(v, fr, ff, tr, tf) && !king_in_check(
        apply_move(v, fr, ff, tr, tf),
        p.color,
    )
}

/// Some piece of `color` has a legal move.
pub open spec fn side_has_move(v: BoardView, color: Color) -> bool {
    exists|fr: int, ff: int, tr: int, tf: int|
        in_bounds(fr, ff) && in_bounds(tr, tf) && own_piece_at(v, color, fr, ff)
            && #[trigger] valid_move(v, fr, ff, tr, tf)
}

/// `color` is checkmated: its king is in check and it has no legal move.
pub open spec fn checkmated(v: BoardView, color: Color) -> bool {
    king_in_check(v, color) && !side_has_move(v, color)
}

/// `color` is stalemated: its king is not in check and it has no legal move.
pub open spec fn stalemated(v: BoardView, color: Color) -> bool {
    !king_in_check(v, color) && !side_has_move(v, color)
}

/// A pawn of either color stands on promotion rank (r, f).
pub open spec fn is_promo_candidate(v: BoardView, r: int, f: int) -> bool {
    (r == 0 || r == 7) && in_bounds(r, f) && (v.at(r, f) matches Some(p) && p.piece_type
        == PieceType::Pawn)
}

/// (r1, f1) comes before (r2, f2) in the promotion scan, which walks rank 0
/// and then rank 7.
pub open spec fn promo_scan_before(r1: int, f1: int, r2: int, f2: int) -> bool {
    (r1 == 0 && r2 == 7) || (r1 == r2 && f1 < f2)
}

/// (r, f) is the first square of the promotion scan holding a pawn.
pub open spec fn is_promotion_square(v: BoardView, r: int, f: int) -> bool {
    is_promo_candidate(v, r, f) && (forall|r2: int, f2: int|
        promo_scan_before(r2, f2, r, f) ==> !(#[trigger] is_promo_candidate(v, r2, f2)))
}

/// Some pawn stands on rank 0 or rank 7.
pub open spec fn has_promotion_square(v: BoardView) -> bool {
    exists|r: int, f: int| #[trigger] is_promo_candidate(v, r, f)
}

/// The piece kind standing on file `f` of a back rank in the starting
/// position.
pub open spec fn back_rank_type(f: int) -> PieceType {
    if f == 0 || f == 7 {
        PieceType::Rook
    } else if f == 1 || f == 6 {
        PieceType::Knight
    } else if f == 2 || f == 5 {
        PieceType::Bishop
    } else if f == 3 {
        PieceType::Queen
    } else {
        PieceType::King
    }
}

/// The piece standing on (r, f) in the standard starting position.
pub open spec fn starting_piece(r: int, f: int) -> Option<Piece> {
    if r == 0 {
        Some(Piece { color: Color::White, piece_type: back_rank_type(f) })
    } else if r == 1 {
        Some(Piece { color: Color::White, piece_type: PieceType::Pawn })
    } else if r == 6 {
        Some(Piece { color: Color::Black, piece_type: PieceType::Pawn })
    } else if r == 7 {
        Some(Piece { color: Color::Black, piece_type: back_rank_type(f) })
    } else {
        None
    }
}

/// A single candidate square, present exactly when its condition holds.
pub open spec fn target_if(cond: bool, r: int, f: int) -> Seq<(int, int)> {
    if cond {
        seq![(r, f)]
    } else {
        Seq::empty()
    }
}

/// The destinations of a stepping piece (knight or king), in the order of
/// the first `n` entries of its offset table: each in-bounds target not
/// holding a piece of its own color.
pub open spec fn step_targets(
    v: BoardView,
    c: Color,
    fr: int,
    ff: int,
    offs: Seq<(i8, i8)>,
    n: int,
) -> Seq<(int, int)>
    decreases n,
{
    if n <= 0 {
        Seq::empty()
    } else {
        step_targets(v, c, fr, ff, offs, n - 1) + target_if(
            in_bounds(fr + offs[n - 1].0, ff + offs[n - 1].1) && !own_piece_at(
                v,
                c,
                fr + offs[n - 1].0,
                ff + offs[n - 1].1,
            ),
            fr + offs[n - 1].0,
            ff + offs[n - 1].1,
        )
    }
}

/// The destinations along one ray from radius `k` outward, in walking
/// order: every empty square up to the first blocker, and the blocker
/// itself when it holds a piece of the opposite color.
pub open spec fn ray_targets(
    v: BoardView,
    c: Color,
    fr: int,
    ff: int,
    dr: int,
    df: int,
    k: int,
) -> Seq<(int, int)>
    decreases 8 - k,
{
    if k < 1 || k >= 8 || !in_bounds(fr + k * dr, ff + k * df) {
        Seq::empty()
    } else {
        match v.at(fr + k * dr, ff + k * df) {
            Some(q) => if q.color == c.spec_opposite() {
                seq![(fr + k * dr, ff + k * df)]
            } else {
                Seq::empty()
            },
            None => seq![(fr + k * dr, ff + k * df)] + ray_targets(v, c, fr, ff, dr, df, k + 1),
        }
    }
}

/// The destinations of a slider, ray by ray in the order of the first `n`
/// entries of its offset table.
pub open spec fn slide_targets(
    v: BoardView,
    c: Color,
    t: PieceType,
    fr: int,
    ff: int,
    n: int,
) -> Seq<(int, int)>
    decreases n,
{
    if n <= 0 {
        Seq::empty()
    } else {
        slide_targets(v, c, t, fr, ff, n - 1) + ray_targets(
            v,
            c,
            fr,
            ff,
            spec_offsets(t)[n - 1].0 as int,
            spec_offsets(t)[n - 1].1 as int,
            1,
        )
    }
}

/// The destinations of a pawn, in generation order: left diagonal capture,
/// right diagonal capture, single advance, double advance, and the two
/// en-passant captures.
pub open spec fn pawn_targets(v: BoardView, c: Color, fr: int, ff: int) -> Seq<(int, int)> {
    let dir = pawn_dir(c);
    target_if(
        in_bounds(fr + dir, ff - 1) && (v.at(fr + dir, ff - 1) matches Some(q) && q.color
            == c.spec_opposite()),
        fr + dir,
        ff - 1,
    ) + target_if(
        in_bounds(fr + dir, ff + 1) && (v.at(fr + dir, ff + 1) matches Some(q) && q.color
            == c.spec_opposite()),
        fr + dir,
        ff + 1,
    ) + target_if(in_bounds(fr + dir, ff) && v.at(fr + dir, ff) is None, fr + dir, ff)
        + target_if(
        in_bounds(fr + dir, ff) && v.at(fr + dir, ff) is None && fr == pawn_start_rank(c)
            && in_bounds(fr + 2 * dir, ff) && v.at(fr + 2 * dir, ff) is None,
        fr + 2 * dir,
        ff,
    ) + target_if(pawn_ep_move(v, c, fr, ff, fr + dir, ff - 1, -1), fr + dir, ff - 1) + target_if(
        pawn_ep_move(v, c, fr, ff, fr + dir, ff + 1, 1),
        fr + dir,
        ff + 1,
    )
}

/// The pawn's candidate list holds exactly its moves: a coordinate pair
/// appears in `pawn_targets` precisely when it is a `pawn_move`.
#[verifier::rlimit(100)]
pub proof fn lemma_pawn_targets_iff(v: BoardView, c: Color, fr: int, ff: int, tr: int, tf: int)
    ensures
        pawn_targets(v, c, fr, ff).contains((tr, tf)) <==> pawn_move(v, c, fr, ff, tr, tf),
{
    let dir = pawn_dir(c);
    let t1 = target_if(
        in_bounds(fr + dir, ff - 1) && (v.at(fr + dir, ff - 1) matches Some(q) && q.color
            == c.spec_opposite()),
        fr + dir,
        ff - 1,
    );
    let t2 = target_if(
        in_bounds(fr + dir, ff + 1) && (v.at(fr + dir, ff + 1) matches Some(q) && q.color
            == c.spec_opposite()),
        fr + dir,
        ff + 1,
    );
    let t3 = target_if(in_bounds(fr + dir, ff) && v.at(fr + dir, ff) is None, fr + dir, ff);
    let t4 = target_if(
        in_bounds(fr + dir, ff) && v.at(fr + dir, ff) is None && fr == pawn_start_rank(c)
            && in_bounds(fr + 2 * dir, ff) && v.at(fr + 2 * dir, ff) is None,
        fr + 2 * dir,
        ff,
    );
    let t5 = target_if(pawn_ep_move(v, c, fr, ff, fr + dir, ff - 1, -1), fr + dir, ff - 1);
    let t6 = target_if(pawn_ep_move(v, c, fr, ff, fr + dir, ff + 1, 1), fr + dir, ff + 1);
    let s = pawn_targets(v, c, fr, ff);
    assert(s == t1 + t2 + t3 + t4 + t5 + t6);

    if pawn_move(v, c, fr, ff, tr, tf) {
        if tr == fr + dir && tf == ff - 1 && in_bounds(tr, tf) && (v.at(tr, tf) matches Some(q)
            && q.color == c.spec_opposite()) {
            assert(s[0] == (tr, tf));
        } else if tr == fr + dir && tf == ff + 1 && in_bounds(tr, tf) && (v.at(tr, tf)
            matches Some(q) && q.color == c.spec_opposite()) {
            assert(s[t1.len() as int] == (tr, tf));
        } else if tr == fr + dir && tf == ff && in_bounds(tr, tf) && v.at(tr, tf) is None {
            assert(s[(t1.len() + t2.len()) as int] == (tr, tf));
        } else if fr == pawn_start_rank(c) && tr == fr + 2 * dir && tf == ff {
            assert(s[(t1.len() + t2.len() + t3.len()) as int] == (tr, tf));
        } else if pawn_ep_move(v, c, fr, ff, tr, tf, -1) {
            assert(s[(t1.len() + t2.len() + t3.len() + t4.len()) as int] == (tr, tf));
        } else {
            assert(pawn_ep_move(v, c, fr, ff, tr, tf, 1));
            assert(s[(t1.len() + t2.len() + t3.len() + t4.len() + t5.len()) as int] == (tr, tf));
        }
    }
    if s.contains((tr, tf)) {
        let i = choose|i: int| 0 <= i < s.len() && s[i] == (tr, tf);
        assert(pawn_move(v, c, fr, ff, tr, tf));
    }
}

/// The destinations of a king: its steps in table order, then the
/// king-side and queen-side castle targets when available.
pub open spec fn king_targets(v: BoardView, c: Color, fr: int, ff: int) -> Seq<(int, int)> {
    step_targets(v, c, fr, ff, spec_offsets(PieceType::King), 8) + target_if(
        can_castle_king_side(v, c),
        castle_rank(c),
        6,
    ) + target_if(can_castle_queen_side(v, c), castle_rank(c), 2)
}

/// The geometric candidates of the piece on (fr, ff), in generation
/// order. An empty square yields no candidates.
pub open spec fn unchecked_targets(v: BoardView, fr: int, ff: int) -> Seq<(int, int)> {
    match v.at(fr, ff) {
        None => Seq::empty(),
        Some(p) => match p.piece_type {
            PieceType::Knight => step_targets(v, p.color, fr, ff, spec_offsets(PieceType::Knight), 8),
            PieceType::King => king_targets(v, p.color, fr, ff),
            PieceType::Pawn => pawn_targets(v, p.color, fr, ff),
            _ => slide_targets(v, p.color, p.piece_type, fr, ff, spec_offsets(p.piece_type).len() as int),
        },
    }
}

/// The subsequence of `s` whose entries are legal moves from (fr, ff),
/// in the order of `s`.
pub open spec fn filter_valid(v: BoardView, fr: int, ff: int, s: Seq<(int, int)>) -> Seq<
    (int, int),
>
    decreases s.len(),
{
    if s.len() == 0 {
        Seq::empty()
    } else {
        filter_valid(v, fr, ff, s.drop_last()) + target_if(
            valid_move(v, fr, ff, s.last().0, s.last().1),
            s.last().0,
            s.last().1,
        )
    }
}

/// The legal moves of the piece on (fr, ff): its geometric candidates, in
/// generation order, filtered to those whose application leaves the
/// mover's own king out of check.
pub open spec fn valid_targets(v: BoardView, fr: int, ff: int) -> Seq<(int, int)> {
    filter_valid(v, fr, ff, unchecked_targets(v, fr, ff))
}

/// Each entry of a slider's offset table is one of its unit directions.
pub proof fn lemma_slider_offset(t: PieceType, i: int)
    requires
        t == PieceType::Bishop || t == PieceType::Rook || t == PieceType::Queen,
        0 <= i < spec_offsets(t).len(),
    ensures
        -1 <= spec_offsets(t)[i].0 <= 1,
        -1 <= spec_offsets(t)[i].1 <= 1,
        !(spec_offsets(t)[i].0 == 0 && spec_offsets(t)[i].1 == 0),
        slide_dir(t, spec_offsets(t)[i].0 as int, spec_offsets(t)[i].1 as int),
{
    if t == PieceType::Bishop {
        assert(i == 0 || i == 1 || i == 2 || i == 3);
    } else if t == PieceType::Rook {
        assert(i == 0 || i == 1 || i == 2 || i == 3);
    } else {
        assert(i == 0 || i == 1 || i == 2 || i == 3 || i == 4 || i == 5 || i == 6 || i == 7);
    }
}

/// Every unit direction of a slider appears in its offset table.
pub proof fn lemma_slide_dir_has_index(t: PieceType, dr: int, df: int)
    requires
        slide_dir(t, dr, df),
    ensures
        exists|i: int|
            0 <= i < spec_offsets(t).len() && (#[trigger] spec_offsets(t)[i]).0 == dr
                && spec_offsets(t)[i].1 == df,
{
    if t == PieceType::Bishop {
        assert(spec_offsets(t)[0].0 == -1 && spec_offsets(t)[0].1 == -1);
        assert(spec_offsets(t)[1].0 == -1 && spec_offsets(t)[1].1 == 1);
        assert(spec_offsets(t)[2].0 == 1 && spec_offsets(t)[2].1 == -1);
        assert(spec_offsets(t)[3].0 == 1 && spec_offsets(t)[3].1 == 1);
    } else if t == PieceType::Rook {
        assert(spec_offsets(t)[0].0 == -1 && spec_offsets(t)[0].1 == 0);
        assert(spec_offsets(t)[1].0 == 0 && spec_offsets(t)[1].1 == -1);
        assert(spec_offsets(t)[2].0 == 0 && spec_offsets(t)[2].1 == 1);
        assert(spec_offsets(t)[3].0 == 1 && spec_offsets(t)[3].1 == 0);
    } else if t == PieceType::Queen {
        assert(spec_offsets(t)[0].0 == -1 && spec_offsets(t)[0].1 == -1);
        assert(spec_offsets(t)[1].0 == -1 && spec_offsets(t)[1].1 == 0);
        assert(spec_offsets(t)[2].0 == -1 && spec_offsets(t)[2].1 == 1);
        assert(spec_offsets(t)[3].0 == 0 && spec_offsets(t)[3].1 == -1);
        assert(spec_offsets(t)[4].0 == 0 && spec_offsets(t)[4].1 == 1);
        assert(spec_offsets(t)[5].0 == 1 && spec_offsets(t)[5].1 == -1);
        assert(spec_offsets(t)[6].0 == 1 && spec_offsets(t)[6].1 == 0);
        assert(spec_offsets(t)[7].0 == 1 && spec_offsets(t)[7].1 == 1);
    }
}

/// The knight's table holds exactly its jumps.
pub proof fn lemma_knight_offset(i: int)
    requires
        0 <= i < spec_offsets(PieceType::Knight).len(),
    ensures
        knight_jump(
            spec_offsets(PieceType::Knight)[i].0 as int,
            spec_offsets(PieceType::Knight)[i].1 as int,
        ),
{
    assert(i == 0 || i == 1 || i == 2 || i == 3 || i == 4 || i == 5 || i == 6 || i == 7);
}

/// Every knight jump appears in the knight's table.
pub proof fn lemma_knight_jump_has_index(dr: int, df: int)
    requires
        knight_jump(dr, df),
    ensures
        exists|i: int|
            0 <= i < spec_offsets(PieceType::Knight).len() && (#[trigger] spec_offsets(
                PieceType::Knight,
            )[i]).0 == dr && spec_offsets(PieceType::Knight)[i].1 == df,
{
    let offs = spec_offsets(PieceType::Knight);
    assert(offs[0].0 == -2 && offs[0].1 == -1);
    assert(offs[1].0 == -2 && offs[1].1 == 1);
    assert(offs[2].0 == -1 && offs[2].1 == -2);
    assert(offs[3].0 == -1 && offs[3].1 == 2);
    assert(offs[4].0 == 1 && offs[4].1 == -2);
    assert(offs[5].0 == 1 && offs[5].1 == 2);
    assert(offs[6].0 == 2 && offs[6].1 == -1);
    assert(offs[7].0 == 2 && offs[7].1 == 1);
}

/// The king's table holds exactly its single steps.
pub proof fn lemma_king_offset(i: int)
    requires
        0 <= i < spec_offsets(PieceType::King).len(),
    ensures
        king_step(
            spec_offsets(PieceType::King)[i].0 as int,
            spec_offsets(PieceType::King)[i].1 as int,
        ),
{
    assert(i == 0 || i == 1 || i == 2 || i == 3 || i == 4 || i == 5 || i == 6 || i == 7);
}

/// Every king step appears in the king's table.
pub proof fn lemma_king_step_has_index(dr: int, df: int)
    requires
        king_step(dr, df),
    ensures
        exists|i: int|
            0 <= i < spec_offsets(PieceType::King).len() && (#[trigger] spec_offsets(
                PieceType::King,
            )[i]).0 == dr && spec_offsets(PieceType::King)[i].1 == df,
{
    let offs = spec_offsets(PieceType::King);
    assert(offs[0].0 == -1 && offs[0].1 == -1);
    assert(offs[1].0 == -1 && offs[1].1 == 0);
    assert(offs[2].0 == -1 && offs[2].1 == 1);
    assert(offs[3].0 == 0 && offs[3].1 == -1);
    assert(offs[4].0 == 0 && offs[4].1 == 1);
    assert(offs[5].0 == 1 && offs[5].1 == -1);
    assert(offs[6].0 == 1 && offs[6].1 == 0);
    assert(offs[7].0 == 1 && offs[7].1 == 1);
}

/// Every geometric move lands on the board.
pub proof fn lemma_unchecked_in_bounds(v: BoardView, fr: int, ff: int, tr: int, tf: int)
    requires
        unchecked_move(v, fr, ff, tr, tf),
    ensures
        in_bounds(tr, tf),
{
    let p = v.at(fr, ff)->0;
    match p.piece_type {
        PieceType::Bishop | PieceType::Rook | PieceType::Queen => {
            let (dr, df) = choose|dr: int, df: int|
                slide_dir(p.piece_type, dr, df) && #[trigger] ray_reaches_dir(
                    v,
                    fr,
                    ff,
                    dr,
                    df,
                    tr,
                    tf,
                );
            let k = choose|k: int|
                1 <= k < 8 && tr == fr + k * dr && tf == ff + k * df && in_bounds(tr, tf)
                    && #[trigger] ray_clear(v, fr, ff, dr, df, k);
        },
        _ => {},
    }
}

/// Walking a unit direction that has left the board never comes back.
pub proof fn lemma_ray_monotone(fr: int, ff: int, dr: int, df: int, radius: int, k: int)
    requires
        -1 <= dr <= 1,
        -1 <= df <= 1,
        in_bounds(fr, ff),
        1 <= radius <= k,
        !in_bounds(fr + radius * dr, ff + radius * df),
    ensures
        !in_bounds(fr + k * dr, ff + k * df),
{
    if dr == -1 {
        assert(radius * dr == -radius && k * dr == -k) by (nonlinear_arith)
            requires
                dr == -1,
        ;
    } else if dr == 0 {
        assert(radius * dr == 0 && k * dr == 0) by (nonlinear_arith)
            requires
                dr == 0,
        ;
    } else {
        assert(radius * dr == radius && k * dr == k) by (nonlinear_arith)
            requires
                dr == 1,
        ;
    }
    if df == -1 {
        assert(radius * df == -radius && k * df == -k) by (nonlinear_arith)
            requires
                df == -1,
        ;
    } else if df == 0 {
        assert(radius * df == 0 && k * df == 0) by (nonlinear_arith)
            requires
                df == 0,
        ;
    } else {
        assert(radius * df == radius && k * df == k) by (nonlinear_arith)
            requires
                df == 1,
        ;
    }
}

/// Castling is available only under its full conditions: king-side
/// availability for a color means the matching right is intact, the two
/// squares between king and rook are empty, and no enemy piece bears on
/// any of the three squares the king touches — so in particular the king
/// is not in check, does not pass through check, and does not land in it.
pub proof fn lemma_king_side_castle_requirements(v: BoardView, color: Color)
    requires
        can_castle_king_side(v, color),
    ensures
        color == Color::White ==> v.castle_king_side_white,
        color == Color::Black ==> v.castle_king_side_black,
        v.at(castle_rank(color), 5) is None,
        v.at(castle_rank(color), 6) is None,
        !square_covered(v, castle_rank(color), 4, color),
        !square_covered(v, castle_rank(color), 5, color),
        !square_covered(v, castle_rank(color), 6, color),
        !square_attacked(v, castle_rank(color), 4, color),
{
    assert(!square_attacked(v, castle_rank(color), 4, color)) by {
        if square_attacked(v, castle_rank(color), 4, color) {
            let (ar, af) = choose|ar: int, af: int|
                in_bounds(ar, af) && #[trigger] attacker_at(v, ar, af, castle_rank(color), 4, color);
            assert(covering_enemy_at(v, ar, af, castle_rank(color), 4, color));
            assert(false);
        }
    };
}

/// Executing a king-side castle moves the king two files toward the rook
/// corner and brings the corner rook to the square beside it, within the
/// same move application.
pub proof fn lemma_king_side_castle_effect(v: BoardView, color: Color)
    requires
        v.wf(),
        v.at(castle_rank(color), 4) matches Some(k) && k.piece_type == PieceType::King,
    ensures
        ({
            let base = castle_rank(color);
            let after = apply_move(v, base, 4, base, 6);
            &&& after.at(base, 6) == v.at(base, 4)
            &&& after.at(base, 5) == v.at(base, 7)
            &&& after.at(base, 4) is None
            &&& after.at(base, 7) is None
        }),
{
}

/// A king's two-file move is legal only as a castle: it carries the full
/// availability conditions with it.
pub proof fn lemma_castle_move_needs_availability(v: BoardView, color: Color)
    requires
        v.at(castle_rank(color), 4) matches Some(k) && k.piece_type == PieceType::King && k.color
            == color,
    ensures
        valid_move(v, castle_rank(color), 4, castle_rank(color), 6) ==> can_castle_king_side(
            v,
            color,
        ),
        valid_move(v, castle_rank(color), 4, castle_rank(color), 2) ==> can_castle_queen_side(
            v,
            color,
        ),
{
}

/// A king moving from its home square revokes both of its color's
/// castling rights for good.
pub proof fn lemma_king_move_revokes_rights(v: BoardView, color: Color, tr: int, tf: int)
    requires
        v.wf(),
        v.at(castle_rank(color), 4) matches Some(k) && k.piece_type == PieceType::King && k.color
            == color,
        !(tr == castle_rank(color) && tf == 4),
    ensures
        color == Color::White ==> !apply_move(v, castle_rank(color), 4, tr, tf).castle_king_side_white
            && !apply_move(v, castle_rank(color), 4, tr, tf).castle_queen_side_white,
        color == Color::Black ==> !apply_move(v, castle_rank(color), 4, tr, tf).castle_king_side_black
            && !apply_move(v, castle_rank(color), 4, tr, tf).castle_queen_side_black,
{
}

/// A rook moving from a home corner revokes that corner's castling right
/// for good.
pub proof fn lemma_rook_move_revokes_right(v: BoardView, fr: int, ff: int, tr: int, tf: int)
    requires
        v.wf(),
        v.at(fr, ff) matches Some(p) && p.piece_type == PieceType::Rook,
        (fr == 0 || fr == 7) && (ff == 0 || ff == 7),
    ensures
        fr == 0 && ff == 0 ==> !apply_move(v, fr, ff, tr, tf).castle_queen_side_white,
        fr == 0 && ff == 7 ==> !apply_move(v, fr, ff, tr, tf).castle_king_side_white,
        fr == 7 && ff == 0 ==> !apply_move(v, fr, ff, tr, tf).castle_queen_side_black,
        fr == 7 && ff == 7 ==> !apply_move(v, fr, ff, tr, tf).castle_king_side_black,
{
}

/// A side that terminal detection declares finished - checkmated or
/// stalemated - has no legal move from any of its squares: what the
/// board-wide verdict says holds piece by piece.
pub proof fn lemma_dead_side_has_no_move(
    v: BoardView,
    color: Color,
    fr: int,
    ff: int,
    tr: int,
    tf: int,
)
    requires
        checkmated(v, color) || stalemated(v, color),
        in_bounds(fr, ff),
        in_bounds(tr, tf),
        own_piece_at(v, color, fr, ff),
    ensures
        !valid_move(v, fr, ff, tr, tf),
{
    if valid_move(v, fr, ff, tr, tf) {
        assert(side_has_move(v, color));
        assert(false);
    }
}

/// Capturing en passant removes the passed pawn from the square it
/// stopped on beside the capturer, not from the capturer's destination.
pub proof fn lemma_en_passant_removes_passed_pawn(
    v: BoardView,
    p: Piece,
    fr: int,
    ff: int,
    o: int,
)
    requires
        v.wf(),
        in_bounds(fr, ff),
        v.at(fr, ff) == Some(p),
        p.piece_type == PieceType::Pawn,
        pawn_ep_move(v, p.color, fr, ff, fr + pawn_dir(p.color), ff + o, o),
    ensures
        apply_move(v, fr, ff, fr + pawn_dir(p.color), ff + o).at(fr, ff + o) is None,
        apply_move(v, fr, ff, fr + pawn_dir(p.color), ff + o).at(fr + pawn_dir(p.color), ff + o)
            == Some(p),
{
}

/// The board is the standard starting position with all rights intact.
pub open spec fn starting_board(v: BoardView) -> bool {
    &&& v.wf()
    &&& forall|r: int, f: int| in_bounds(r, f) ==> #[trigger] v.at(r, f) == starting_piece(r, f)
    &&& v.en_passant is None
    &&& v.castle_king_side_white
    &&& v.castle_queen_side_white
    &&& v.castle_king_side_black
    &&& v.castle_queen_side_black
}

} // verus!

//! Move and capture generation: masked directional shifts over the board
//! sets, proved equal to a per-square geometric description of the legal
//! steps and jumps.
//!
//! Square chart, with the diagonal offsets used throughout:
//!
//! ```text
//!       57  59  61  63
//!     48  50  52  54
//!       41  43  45  47
//!     32  34  36  38
//!       25  27  29  31
//!     16  18  20  22
//!       09  11  13  15
//!     00  02  04  06
//!     Up left = +7      Up right = +9
//!     Down left = -9    Down right = -7
//!     Up left jump = +14    Up right jump = +18
//!     Down left jump = -18  Down right jump = -14
//! ```

use vstd::prelude::*;

use crate::bitboard::{
    col, contains_sq, row, Bitboard, BOTTOM_EDGE, BOTTOM_TWO, LEFT_EDGE, LEFT_TWO,
    PLAYABLE_SQUARES, RIGHT_EDGE, RIGHT_TWO, TOP_EDGE, TOP_TWO,
};
use crate::bitboard::{lemma_nonempty, lemma_sq_ops};
use crate::game::{
    empty_of, kings_of, men_of, occupied_of, opponents_of, BoardView, Checkerboard, PlayerColor,
};

verus! {

/// A piece of `color` with the given rank may step from square `s` to the
/// diagonally adjacent square `d`: men only toward the opponent's back
/// row, kings either way.
pub open spec fn step_ok(color: PlayerColor, king: bool, s: u64, d: u64) -> bool {
    &&& s < 64
    &&& d < 64
    &&& (col(d) == col(s) + 1 || col(s) == col(d) + 1)
    &&& ((row(d) == row(s) + 1 && (king || color == PlayerColor::White)) || (row(s) == row(d) + 1
        && (king || color == PlayerColor::Black)))
}

/// A piece of `color` with the given rank may jump from square `s` to
/// square `d`: two diagonal steps in one direction the piece may take.
pub open spec fn jump_shape(color: PlayerColor, king: bool, s: u64, d: u64) -> bool {
    &&& s < 64
    &&& d < 64
    &&& (col(d) == col(s) + 2 || col(s) == col(d) + 2)
    &&& ((row(d) == row(s) + 2 && (king || color == PlayerColor::White)) || (row(s) == row(d) + 2
        && (king || color == PlayerColor::Black)))
}

/// The square jumped over: the one between the start and the landing
/// square of a jump.
pub open spec fn jumped_sq(s: u64, d: u64) -> u64 {
    ((s + d) / 2) as u64
}

/// A piece of `color` standing on `s` can make the single-step move to `d`
/// on the board `v`.
pub open spec fn can_step(v: BoardView, color: PlayerColor, king: bool, s: u64, d: u64) -> bool {
    step_ok(color, king, s, d) && contains_sq(empty_of(v), d)
}

/// A piece of `color` standing on `s` can capture by jumping to `d` on the
/// board `v`: the square between holds an opponent and `d` is empty.
pub open spec fn can_jump(v: BoardView, color: PlayerColor, king: bool, s: u64, d: u64) -> bool {
    jump_shape(color, king, s, d) && contains_sq(opponents_of(v, color), jumped_sq(s, d))
        && contains_sq(empty_of(v), d)
}

/// Square `d` is a single-step destination of some piece of the set `x`.
pub open spec fn step_dest(
    v: BoardView,
    color: PlayerColor,
    king: bool,
    x: u64,
    d: u64,
) -> bool {
    exists|s: u64| #[trigger] contains_sq(x, s) && can_step(v, color, king, s, d)
}

/// Square `d` is a jump destination of some piece of the set `x`.
pub open spec fn jump_dest(
    v: BoardView,
    color: PlayerColor,
    king: bool,
    x: u64,
    d: u64,
) -> bool {
    exists|s: u64| #[trigger] contains_sq(x, s) && can_jump(v, color, king, s, d)
}

/// Some piece of `color` has a single-step move available.
pub open spec fn has_step(v: BoardView, color: PlayerColor) -> bool {
    (exists|s: u64, d: u64| contains_sq(men_of(v, color), s) && #[trigger] can_step(
        v,
        color,
        false,
        s,
        d,
    )) || (exists|s: u64, d: u64| contains_sq(kings_of(v, color), s) && #[trigger] can_step(
        v,
        color,
        true,
        s,
        d,
    ))
}

/// Some piece of `color` has a capture available: the forced-capture rule
/// turns on exactly this.
pub open spec fn has_capture(v: BoardView, color: PlayerColor) -> bool {
    (exists|s: u64, d: u64| contains_sq(men_of(v, color), s) && #[trigger] can_jump(
        v,
        color,
        false,
        s,
        d,
    )) || (exists|s: u64, d: u64| contains_sq(kings_of(v, color), s) && #[trigger] can_jump(
        v,
        color,
        true,
        s,
        d,
    ))
}

/// Bit semantics of the up-left step term: masking the left column and top
/// row first makes the shift exactly the geometric step.
proof fn lemma_step_ul(x: u64, e: u64, d: u64)
    by (bit_vector)
    requires
        x & PLAYABLE_SQUARES == x,
        d < 64,
    ensures
        contains_sq(((x & !(LEFT_EDGE | TOP_EDGE)) << 7u64) & e, d) <==> (contains_sq(e, d) && d
            >= 7 && contains_sq(x, (d - 7) as u64) && row(d) == row((d - 7) as u64) + 1 && col((d
            - 7) as u64) == col(d) + 1),
{
}

/// Bit semantics of the up-right step term.
proof fn lemma_step_ur(x: u64, e: u64, d: u64)
    by (bit_vector)
    requires
        x & PLAYABLE_SQUARES == x,
        d < 64,
    ensures
        contains_sq(((x & !(RIGHT_EDGE | TOP_EDGE)) << 9u64) & e, d) <==> (contains_sq(e, d) && d
            >= 9 && contains_sq(x, (d - 9) as u64) && row(d) == row((d - 9) as u64) + 1 && col(d)
            == col((d - 9) as u64) + 1),
{
}

/// Bit semantics of the down-left step term.
proof fn lemma_step_dl(x: u64, e: u64, d: u64)
    by (bit_vector)
    requires
        x & PLAYABLE_SQUARES == x,
        d < 64,
    ensures
        contains_sq(((x & !(LEFT_EDGE | BOTTOM_EDGE)) >> 9u64) & e, d) <==> (contains_sq(e, d)
            && contains_sq(x, (d + 9) as u64) && row((d + 9) as u64) == row(d) + 1 && col((d
            + 9) as u64) == col(d) + 1),
{
}

/// Bit semantics of the down-right step term.
proof fn lemma_step_dr(x: u64, e: u64, d: u64)
    by (bit_vector)
    requires
        x & PLAYABLE_SQUARES == x,
        d < 64,
    ensures
        contains_sq(((x & !(RIGHT_EDGE | BOTTOM_EDGE)) >> 7u64) & e, d) <==> (contains_sq(e, d)
            && contains_sq(x, (d + 7) as u64) && row((d + 7) as u64) == row(d) + 1 && col(d)
            == col((d + 7) as u64) + 1),
{
}

/// From the row/column relation of a diagonal step, the bit offset between
/// the two squares.
proof fn lemma_step_offsets(s: u64, d: u64)
    by (bit_vector)
    requires
        s < 64,
        d < 64,
    ensures
        (row(d) == row(s) + 1 && col(s) == col(d) + 1) ==> (d >= 7 && s == (d - 7) as u64),
        (row(d) == row(s) + 1 && col(d) == col(s) + 1) ==> (d >= 9 && s == (d - 9) as u64),
        (row(s) == row(d) + 1 && col(s) == col(d) + 1) ==> s == (d + 9) as u64,
        (row(s) == row(d) + 1 && col(d) == col(s) + 1) ==> s == (d + 7) as u64,
{
}

/// Terms intersected with the empty squares stay clear of the occupied
/// squares, singly and in unions.
proof fn lemma_empty_terms(a: u64, b: u64, c: u64, d: u64, o: u64)
    by (bit_vector)
    ensures
        (((a & !o) | (b & !o)) | (c & !o) | (d & !o)) & o == 0,
        ((a & !o) | (b & !o)) & o == 0,
        ((c & !o) | (d & !o)) & o == 0,
{
}

/// The destinations reachable by one diagonal step of the pieces of
/// `squares`, owned by `color` with the given rank, on the given board.
///
/// For any set of playable sources the result holds square `d` exactly
/// when some source can step to `d`; whatever the sources, it never holds
/// an occupied square.
pub fn piece_moves(board: &Checkerboard, color: PlayerColor, king: bool, squares: Bitboard) -> (r:
    Bitboard)
    ensures
        r@ & occupied_of(board@) == 0,
        squares@ & PLAYABLE_SQUARES == squares@ ==> (forall|d: u64|
            #[trigger] contains_sq(r@, d) <==> step_dest(board@, color, king, squares@, d)),
{
    let empty = board.empty();
    let ul = squares.shl_masked(LEFT_EDGE | TOP_EDGE, 7).intersect(empty);
    let ur = squares.shl_masked(RIGHT_EDGE | TOP_EDGE, 9).intersect(empty);
    let dl = squares.shr_masked(LEFT_EDGE | BOTTOM_EDGE, 9).intersect(empty);
    let dr = squares.shr_masked(RIGHT_EDGE | BOTTOM_EDGE, 7).intersect(empty);
    let r = if king {
        ul.union(ur).union(dl).union(dr)
    } else {
        match color {
            PlayerColor::White => ul.union(ur),
            PlayerColor::Black => dl.union(dr),
        }
    };
    proof {
        let x = squares@;
        let o = occupied_of(board@);
        let e = empty_of(board@);
        lemma_empty_terms(
            (x & !(LEFT_EDGE | TOP_EDGE)) << 7u64,
            (x & !(RIGHT_EDGE | TOP_EDGE)) << 9u64,
            (x & !(LEFT_EDGE | BOTTOM_EDGE)) >> 9u64,
            (x & !(RIGHT_EDGE | BOTTOM_EDGE)) >> 7u64,
            o,
        );
        if x & PLAYABLE_SQUARES == x {
            assert forall|d: u64|
                #[trigger] contains_sq(r@, d) <==> step_dest(board@, color, king, x, d) by {
                if d < 64 {
                    lemma_step_ul(x, e, d);
                    lemma_step_ur(x, e, d);
                    lemma_step_dl(x, e, d);
                    lemma_step_dr(x, e, d);
                    lemma_sq_ops(ul@, ur@, d);
                    lemma_sq_ops(dl@, dr@, d);
                    lemma_sq_ops(ul@ | ur@, dl@, d);
                    lemma_sq_ops((ul@ | ur@) | dl@, dr@, d);
                    if contains_sq(r@, d) {
                        let up_ok = king || color == PlayerColor::White;
                        let down_ok = king || color == PlayerColor::Black;
                        if up_ok && contains_sq(ul@, d) {
                            let s = (d - 7) as u64;
                            assert(contains_sq(x, s) && can_step(board@, color, king, s, d));
                        } else if up_ok && contains_sq(ur@, d) {
                            let s = (d - 9) as u64;
                            assert(contains_sq(x, s) && can_step(board@, color, king, s, d));
                        } else if down_ok && contains_sq(dl@, d) {
                            let s = (d + 9) as u64;
                            assert(contains_sq(x, s) && can_step(board@, color, king, s, d));
                        } else {
                            let s = (d + 7) as u64;
                            assert(down_ok && contains_sq(dr@, d));
                            assert(contains_sq(x, s) && can_step(board@, color, king, s, d));
                        }
                    }
                    if step_dest(board@, color, king, x, d) {
                        let s = choose|s: u64|
                            #[trigger] contains_sq(x, s) && can_step(board@, color, king, s, d);
                        lemma_step_offsets(s, d);
                        assert(contains_sq(r@, d));
                    }
                } else {
                    assert(!contains_sq(r@, d));
                    if step_dest(board@, color, king, x, d) {
                        let s = choose|s: u64|
                            #[trigger] contains_sq(x, s) && can_step(board@, color, king, s, d);
                        assert(false);
                    }
                }
            }
        }
    }
    r
}

/// Bit semantics of the up-left jump term: masking the two left columns
/// and two top rows first makes the double shift exactly the geometric
/// jump, with the jumped square in the middle.
proof fn lemma_jump_ul(x: u64, o: u64, e: u64, d: u64)
    by (bit_vector)
    requires
        x & PLAYABLE_SQUARES == x,
        d < 64,
    ensures
        contains_sq((((((x & !(LEFT_TWO | TOP_TWO)) << 7u64) & o) << 7u64) & e), d) <==> (
        contains_sq(e, d) && d >= 14 && contains_sq(x, (d - 14) as u64) && contains_sq(o, (d
            - 7) as u64) && row(d) == row((d - 14) as u64) + 2 && col((d - 14) as u64) == col(d)
            + 2),
{
}

/// Bit semantics of the up-right jump term.
proof fn lemma_jump_ur(x: u64, o: u64, e: u64, d: u64)
    by (bit_vector)
    requires
        x & PLAYABLE_SQUARES == x,
        d < 64,
    ensures
        contains_sq((((((x & !(RIGHT_TWO | TOP_TWO)) << 9u64) & o) << 9u64) & e), d) <==> (
        contains_sq(e, d) && d >= 18 && contains_sq(x, (d - 18) as u64) && contains_sq(o, (d
            - 9) as u64) && row(d) == row((d - 18) as u64) + 2 && col(d) == col((d - 18) as u64)
            + 2),
{
}

/// Bit semantics of the down-left jump term.
proof fn lemma_jump_dl(x: u64, o: u64, e: u64, d: u64)
    by (bit_vector)
    requires
        x & PLAYABLE_SQUARES == x,
        d < 64,
    ensures
        contains_sq((((((x & !(LEFT_TWO | BOTTOM_TWO)) >> 9u64) & o) >> 9u64) & e), d) <==> (
        contains_sq(e, d) && contains_sq(x, (d + 18) as u64) && contains_sq(o, (d + 9) as u64)
            && row((d + 18) as u64) == row(d) + 2 && col((d + 18) as u64) == col(d) + 2),
{
}

/// Bit semantics of the down-right jump term.
proof fn lemma_jump_dr(x: u64, o: u64, e: u64, d: u64)
    by (bit_vector)
    requires
        x & PLAYABLE_SQUARES == x,
        d < 64,
    ensures
        contains_sq((((((x & !(RIGHT_TWO | BOTTOM_TWO)) >> 7u64) & o) >> 7u64) & e), d) <==> (
        contains_sq(e, d) && contains_sq(x, (d + 14) as u64) && contains_sq(o, (d + 7) as u64)
            && row((d + 14) as u64) == row(d) + 2 && col(d) == col((d + 14) as u64) + 2),
{
}

/// From the row/column relation of a diagonal jump, the bit offsets of the
/// start and of the jumped square.
proof fn lemma_jump_offsets(s: u64, d: u64)
    by (bit_vector)
    requires
        s < 64,
        d < 64,
    ensures
        (row(d) == row(s) + 2 && col(s) == col(d) + 2) ==> (d >= 14 && s == (d - 14) as u64 && ((
        s + d) / 2) as u64 == (d - 7) as u64),
        (row(d) == row(s) + 2 && col(d) == col(s) + 2) ==> (d >= 18 && s == (d - 18) as u64 && ((
        s + d) / 2) as u64 == (d - 9) as u64),
        (row(s) == row(d) + 2 && col(s) == col(d) + 2) ==> (s == (d + 18) as u64 && ((s + d)
            / 2) as u64 == (d + 9) as u64),
        (row(s) == row(d) + 2 && col(d) == col(s) + 2) ==> (s == (d + 14) as u64 && ((s + d)
            / 2) as u64 == (d + 7) as u64),
{
}

/// The landing squares reachable by one capturing jump of the pieces of
/// `squares`, owned by `color` with the given rank, on the given board.
///
/// For any set of playable sources the result holds square `d` exactly
/// when some source can jump to `d` over an opponent; whatever the
/// sources, it never holds an occupied square.
pub fn piece_captures(
    board: &Checkerboard,
    color: PlayerColor,
    king: bool,
    squares: Bitboard,
) -> (r: Bitboard)
    ensures
        r@ & occupied_of(board@) == 0,
        squares@ & PLAYABLE_SQUARES == squares@ ==> (forall|d: u64|
            #[trigger] contains_sq(r@, d) <==> jump_dest(board@, color, king, squares@, d)),
{
    let opponents = board.opponents(color);
    let empty = board.empty();
    let ul = squares.shl_masked(LEFT_TWO | TOP_TWO, 7).intersect(opponents).shl(7).intersect(
        empty,
    );
    let ur = squares.shl_masked(RIGHT_TWO | TOP_TWO, 9).intersect(opponents).shl(9).intersect(
        empty,
    );
    let dl = squares.shr_masked(LEFT_TWO | BOTTOM_TWO, 9).intersect(opponents).shr(9).intersect(
        empty,
    );
    let dr = squares.shr_masked(RIGHT_TWO | BOTTOM_TWO, 7).intersect(opponents).shr(7).intersect(
        empty,
    );
    let r = if king {
        ul.union(ur).union(dl).union(dr)
    } else {
        match color {
            PlayerColor::White => ul.union(ur),
            PlayerColor::Black => dl.union(dr),
        }
    };
    proof {
        let x = squares@;
        let o = occupied_of(board@);
        let opp = opponents_of(board@, color);
        let e = empty_of(board@);
        lemma_empty_terms(
            (((x & !(LEFT_TWO | TOP_TWO)) << 7u64) & opp) << 7u64,
            (((x & !(RIGHT_TWO | TOP_TWO)) << 9u64) & opp) << 9u64,
            (((x & !(LEFT_TWO | BOTTOM_TWO)) >> 9u64) & opp) >> 9u64,
            (((x & !(RIGHT_TWO | BOTTOM_TWO)) >> 7u64) & opp) >> 7u64,
            o,
        );
        if x & PLAYABLE_SQUARES == x {
            assert forall|d: u64|
                #[trigger] contains_sq(r@, d) <==> jump_dest(board@, color, king, x, d) by {
                if d < 64 {
                    lemma_jump_ul(x, opp, e, d);
                    lemma_jump_ur(x, opp, e, d);
                    lemma_jump_dl(x, opp, e, d);
                    lemma_jump_dr(x, opp, e, d);
                    lemma_sq_ops(ul@, ur@, d);
                    lemma_sq_ops(dl@, dr@, d);
                    lemma_sq_ops(ul@ | ur@, dl@, d);
                    lemma_sq_ops((ul@ | ur@) | dl@, dr@, d);
                    if contains_sq(r@, d) {
                        let up_ok = king || color == PlayerColor::White;
                        let down_ok = king || color == PlayerColor::Black;
                        if up_ok && contains_sq(ul@, d) {
                            let s = (d - 14) as u64;
                            lemma_jump_offsets(s, d);
                            assert(contains_sq(x, s) && can_jump(board@, color, king, s, d));
                        } else if up_ok && contains_sq(ur@, d) {
                            let s = (d - 18) as u64;
                            lemma_jump_offsets(s, d);
                            assert(contains_sq(x, s) && can_jump(board@, color, king, s, d));
                        } else if down_ok && contains_sq(dl@, d) {
                            let s = (d + 18) as u64;
                            lemma_jump_offsets(s, d);
                            assert(contains_sq(x, s) && can_jump(board@, color, king, s, d));
                        } else {
                            let s = (d + 14) as u64;
                            assert(down_ok && contains_sq(dr@, d));
                            lemma_jump_offsets(s, d);
                            assert(contains_sq(x, s) && can_jump(board@, color, king, s, d));
                        }
                    }
                    if jump_dest(board@, color, king, x, d) {
                        let s = choose|s: u64|
                            #[trigger] contains_sq(x, s) && can_jump(board@, color, king, s, d);
                        lemma_jump_offsets(s, d);
                        assert(contains_sq(r@, d));
                    }
                } else {
                    assert(!contains_sq(r@, d));
                    if jump_dest(board@, color, king, x, d) {
                        let s = choose|s: u64|
                            #[trigger] contains_sq(x, s) && can_jump(board@, color, king, s, d);
                        assert(false);
                    }
                }
            }
        }
    }
    r
}

/// A diagonal step or jump from a playable square lands on a playable
/// square: diagonal movement keeps the parity of row plus column.
pub(crate) proof fn lemma_dest_playable(s: u64, e: u64)
    by (bit_vector)
    requires
        s < 64,
        e < 64,
        contains_sq(PLAYABLE_SQUARES, s),
        ((row(e) == row(s) + 1 || row(s) == row(e) + 1) && (col(e) == col(s) + 1 || col(s) == col(
            e,
        ) + 1)) || ((row(e) == row(s) + 2 || row(s) == row(e) + 2) && (col(e) == col(s) + 2 || col(
            s,
        ) == col(e) + 2)),
    ensures
        contains_sq(PLAYABLE_SQUARES, e),
{
}

/// On a well-formed board every set is playable-only.
proof fn lemma_playable_sets(a: u64, b: u64, c: u64, d: u64)
    by (bit_vector)
    requires
        (a | b | c | d) & !PLAYABLE_SQUARES == 0,
    ensures
        a & PLAYABLE_SQUARES == a,
        b & PLAYABLE_SQUARES == b,
        c & PLAYABLE_SQUARES == c,
        d & PLAYABLE_SQUARES == d,
{
}

/// A union of two sets clear of `o` is clear of `o`.
proof fn lemma_union_clear(x: u64, y: u64, o: u64)
    by (bit_vector)
    requires
        x & o == 0,
        y & o == 0,
    ensures
        (x | y) & o == 0,
{
}

/// Every single-step destination of `color`: the step destinations of its
/// men and of its kings together.  The result is non-empty exactly when
/// the color has a single-step move available.
pub fn color_moves(board: &Checkerboard, color: PlayerColor) -> (r: Bitboard)
    ensures
        r@ & occupied_of(board@) == 0,
        forall|d: u64|
            #[trigger] contains_sq(r@, d) <==> (step_dest(
                board@,
                color,
                false,
                men_of(board@, color),
                d,
            ) || step_dest(board@, color, true, kings_of(board@, color), d)),
        (r@ != 0) <==> has_step(board@, color),
{
    proof {
        use_type_invariant(board);
        lemma_playable_sets(
            board@.white_men,
            board@.black_men,
            board@.white_kings,
            board@.black_kings,
        );
    }
    let men = board.men(color);
    let kings = board.kings(color);
    let a = piece_moves(board, color, false, men);
    let b = piece_moves(board, color, true, kings);
    let r = a.union(b);
    proof {
        lemma_union_clear(a@, b@, occupied_of(board@));
        assert forall|d: u64|
            #[trigger] contains_sq(r@, d) <==> (step_dest(
                board@,
                color,
                false,
                men_of(board@, color),
                d,
            ) || step_dest(board@, color, true, kings_of(board@, color), d)) by {
            lemma_sq_ops(a@, b@, d);
        }
        lemma_nonempty(r@);
        if r@ != 0 {
            let i = choose|i: u64| contains_sq(r@, i);
            lemma_sq_ops(a@, b@, i);
            if step_dest(board@, color, false, men_of(board@, color), i) {
                let s = choose|s: u64|
                    #[trigger] contains_sq(men_of(board@, color), s) && can_step(
                        board@,
                        color,
                        false,
                        s,
                        i,
                    );
                assert(contains_sq(men_of(board@, color), s) && can_step(
                    board@,
                    color,
                    false,
                    s,
                    i,
                ));
            } else {
                let s = choose|s: u64|
                    #[trigger] contains_sq(kings_of(board@, color), s) && can_step(
                        board@,
                        color,
                        true,
                        s,
                        i,
                    );
                assert(contains_sq(kings_of(board@, color), s) && can_step(
                    board@,
                    color,
                    true,
                    s,
                    i,
                ));
            }
        }
        if has_step(board@, color) {
            if exists|s: u64, d: u64|
                contains_sq(men_of(board@, color), s) && #[trigger] can_step(
                    board@,
                    color,
                    false,
                    s,
                    d,
                ) {
                let (s, d) = choose|s: u64, d: u64|
                    contains_sq(men_of(board@, color), s) && #[trigger] can_step(
                        board@,
                        color,
                        false,
                        s,
                        d,
                    );
                assert(step_dest(board@, color, false, men_of(board@, color), d));
                assert(contains_sq(r@, d));
            } else {
                let (s, d) = choose|s: u64, d: u64|
                    contains_sq(kings_of(board@, color), s) && #[trigger] can_step(
                        board@,
                        color,
                        true,
                        s,
                        d,
                    );
                assert(step_dest(board@, color, true, kings_of(board@, color), d));
                assert(contains_sq(r@, d));
            }
        }
    }
    r
}

/// Every capture landing square of `color`: the jump destinations of its
/// men and of its kings together.  The result is non-empty exactly when
/// the color has a capture available — the test that the forced-capture
/// rule turns on.
pub fn color_captures(board: &Checkerboard, color: PlayerColor) -> (r: Bitboard)
    ensures
        r@ & occupied_of(board@) == 0,
        forall|d: u64|
            #[trigger] contains_sq(r@, d) <==> (jump_dest(
                board@,
                color,
                false,
                men_of(board@, color),
                d,
            ) || jump_dest(board@, color, true, kings_of(board@, color), d)),
        (r@ != 0) <==> has_capture(board@, color),
{
    proof {
        use_type_invariant(board);
        lemma_playable_sets(
            board@.white_men,
            board@.black_men,
            board@.white_kings,
            board@.black_kings,
        );
    }
    let men = board.men(color);
    let kings = board.kings(color);
    let a = piece_captures(board, color, false, men);
    let b = piece_captures(board, color, true, kings);
    let r = a.union(b);
    proof {
        lemma_union_clear(a@, b@, occupied_of(board@));
        assert forall|d: u64|
            #[trigger] contains_sq(r@, d) <==> (jump_dest(
                board@,
                color,
                false,
                men_of(board@, color),
                d,
            ) || jump_dest(board@, color, true, kings_of(board@, color), d)) by {
            lemma_sq_ops(a@, b@, d);
        }
        lemma_nonempty(r@);
        if r@ != 0 {
            let i = choose|i: u64| contains_sq(r@, i);
            lemma_sq_ops(a@, b@, i);
            if jump_dest(board@, color, false, men_of(board@, color), i) {
                let s = choose|s: u64|
                    #[trigger] contains_sq(men_of(board@, color), s) && can_jump(
                        board@,
                        color,
                        false,
                        s,
                        i,
                    );
                assert(contains_sq(men_of(board@, color), s) && can_jump(
                    board@,
                    color,
                    false,
                    s,
                    i,
                ));
            } else {
                let s = choose|s: u64|
                    #[trigger] contains_sq(kings_of(board@, color), s) && can_jump(
                        board@,
                        color,
                        true,
                        s,
                        i,
                    );
                assert(contains_sq(kings_of(board@, color), s) && can_jump(
                    board@,
                    color,
                    true,
                    s,
                    i,
                ));
            }
        }
        if has_capture(board@, color) {
            if exists|s: u64, d: u64|
                contains_sq(men_of(board@, color), s) && #[trigger] can_jump(
                    board@,
                    color,
                    false,
                    s,
                    d,
                ) {
                let (s, d) = choose|s: u64, d: u64|
                    contains_sq(men_of(board@, color), s) && #[trigger] can_jump(
                        board@,
                        color,
                        false,
                        s,
                        d,
                    );
                assert(jump_dest(board@, color, false, men_of(board@, color), d));
                assert(contains_sq(r@, d));
            } else {
                let (s, d) = choose|s: u64, d: u64|
                    contains_sq(kings_of(board@, color), s) && #[trigger] can_jump(
                        board@,
                        color,
                        true,
                        s,
                        d,
                    );
                assert(jump_dest(board@, color, true, kings_of(board@, color), d));
                assert(contains_sq(r@, d));
            }
        }
    }
    r
}

} // verus!

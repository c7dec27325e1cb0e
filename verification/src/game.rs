//! The board state of a checkers game: four mutually exclusive square
//! sets (white men, black men, white kings, black kings) and the move
//! application that is their sole mutator.

use vstd::prelude::*;

use crate::bitboard::{
    contains_sq, is_single, lemma_single, lemma_single_member, lemma_sq_ops, lemma_subset_clear,
    sq_of, Bitboard, BOTTOM_EDGE, PLAYABLE_SQUARES, TOP_EDGE,
};
use crate::bitboard::lemma_nonempty;
use crate::moves::{
    can_jump, can_step, has_capture, jump_dest, jumped_sq, piece_captures, piece_moves,
};
use crate::moves::{color_captures, lemma_dest_playable};

verus! {

/// One of the two sides of the game.
#[derive(Copy, Clone, Debug, PartialEq, Eq, Structural)]
pub enum PlayerColor {
    White,
    Black,
}

/// The opposing color.
pub open spec fn other(color: PlayerColor) -> PlayerColor {
    match color {
        PlayerColor::White => PlayerColor::Black,
        PlayerColor::Black => PlayerColor::White,
    }
}

impl PlayerColor {
    /// The opposing color.
    pub fn opposite(self) -> (r: PlayerColor)
        ensures
            r == other(self),
    {
        match self {
            PlayerColor::White => PlayerColor::Black,
            PlayerColor::Black => PlayerColor::White,
        }
    }
}

/// The outcome of proposing one move: either the board was left untouched,
/// or the move was applied and the carried color is the one to move next —
/// the same color signals that a capture sequence continues from the
/// landing square.
#[derive(Debug, Copy, Clone, PartialEq, Eq, Structural)]
pub enum MoveResult {
    Valid(PlayerColor),
    Invalid,
}

/// The mathematical value of a board: the four square sets as plain masks.
pub ghost struct BoardView {
    pub white_men: u64,
    pub black_men: u64,
    pub white_kings: u64,
    pub black_kings: u64,
}

/// The square set that holds pieces of `color` with the given rank.
pub open spec fn set_of(v: BoardView, color: PlayerColor, king: bool) -> u64 {
    match (color, king) {
        (PlayerColor::White, false) => v.white_men,
        (PlayerColor::Black, false) => v.black_men,
        (PlayerColor::White, true) => v.white_kings,
        (PlayerColor::Black, true) => v.black_kings,
    }
}

/// `v` with the square set of (`color`, `king`) replaced by `x`.
pub open spec fn with_set(v: BoardView, color: PlayerColor, king: bool, x: u64) -> BoardView {
    match (color, king) {
        (PlayerColor::White, false) => BoardView { white_men: x, ..v },
        (PlayerColor::Black, false) => BoardView { black_men: x, ..v },
        (PlayerColor::White, true) => BoardView { white_kings: x, ..v },
        (PlayerColor::Black, true) => BoardView { black_kings: x, ..v },
    }
}

/// The men of `color`.
pub open spec fn men_of(v: BoardView, color: PlayerColor) -> u64 {
    set_of(v, color, false)
}

/// The kings of `color`.
pub open spec fn kings_of(v: BoardView, color: PlayerColor) -> u64 {
    set_of(v, color, true)
}

/// All pieces of `color`.
pub open spec fn pieces_of(v: BoardView, color: PlayerColor) -> u64 {
    men_of(v, color) | kings_of(v, color)
}

/// All pieces of the color opposing `color`.
pub open spec fn opponents_of(v: BoardView, color: PlayerColor) -> u64 {
    pieces_of(v, other(color))
}

/// Every occupied square.
pub open spec fn occupied_of(v: BoardView) -> u64 {
    v.white_men | v.black_men | v.white_kings | v.black_kings
}

/// Every empty square.
pub open spec fn empty_of(v: BoardView) -> u64 {
    !occupied_of(v)
}

/// Well-formedness of a board: the four sets are pairwise disjoint — no
/// square holds two pieces — and every piece stands on a playable square.
pub open spec fn board_wf(v: BoardView) -> bool {
    &&& v.white_men & v.black_men == 0
    &&& v.white_men & v.white_kings == 0
    &&& v.white_men & v.black_kings == 0
    &&& v.black_men & v.white_kings == 0
    &&& v.black_men & v.black_kings == 0
    &&& v.white_kings & v.black_kings == 0
    &&& occupied_of(v) & !PLAYABLE_SQUARES == 0
}

/// The standard starting position: each side's men fill its three
/// back-most playable rows, and there are no kings.
pub open spec fn start_position() -> BoardView {
    BoardView {
        white_men: 0x55AA55,
        black_men: 0xAA55AA0000000000,
        white_kings: 0,
        black_kings: 0,
    }
}

/// The promotion row for `color`: the row farthest from its starting side.
pub open spec fn promotion_edge(color: PlayerColor) -> u64 {
    match color {
        PlayerColor::White => TOP_EDGE,
        PlayerColor::Black => BOTTOM_EDGE,
    }
}

/// The move from `start` to `end` is one that `make_move` accepts for
/// `color`: both are single squares, a piece of `color` stands on `start`,
/// and the move is either a legal jump, or a legal single step while no
/// capture is available anywhere — the forced-capture rule.
pub open spec fn move_legal(v: BoardView, color: PlayerColor, start: u64, end: u64) -> bool {
    &&& is_single(start)
    &&& is_single(end)
    &&& ({
        let s = sq_of(start);
        let e = sq_of(end);
        let king = contains_sq(kings_of(v, color), s);
        &&& (king || contains_sq(men_of(v, color), s))
        &&& (can_jump(v, color, king, s, e) || (can_step(v, color, king, s, e) && !has_capture(
            v,
            color,
        )))
    })
}

/// The board after a legal move from `start` to `end`: the jumped piece,
/// if any, leaves the opponent's set, the moving piece leaves its source
/// square, and it lands on `end` — in the king set instead of the men set
/// when a man reaches its promotion row.
pub open spec fn apply_move(v: BoardView, color: PlayerColor, start: u64, end: u64) -> BoardView {
    let s = sq_of(start);
    let e = sq_of(end);
    let king = contains_sq(kings_of(v, color), s);
    let opp = other(color);
    let v1 = if can_jump(v, color, king, s, e) {
        let m = jumped_sq(s, e);
        let opp_king = contains_sq(kings_of(v, opp), m);
        with_set(v, opp, opp_king, set_of(v, opp, opp_king) & !(1u64 << m))
    } else {
        v
    };
    let v2 = with_set(v1, color, king, set_of(v1, color, king) & !(1u64 << s));
    let promoted = contains_sq(promotion_edge(color), e) && !king;
    if promoted {
        with_set(v2, color, true, set_of(v2, color, true) | (1u64 << e))
    } else {
        with_set(v2, color, king, set_of(v2, color, king) | (1u64 << e))
    }
}

/// The king status of the moved piece after the move: it was a king
/// already, or it has just reached its promotion row.
pub open spec fn moved_king(v: BoardView, color: PlayerColor, start: u64, end: u64) -> bool {
    contains_sq(kings_of(v, color), sq_of(start)) || contains_sq(
        promotion_edge(color),
        sq_of(end),
    )
}

/// A legal move from `start` to `end` was a capture, and the piece now
/// standing on `end` — with its possibly updated king status — has a
/// further capture available: the same color must move again.
pub open spec fn continues_capture(
    v: BoardView,
    color: PlayerColor,
    start: u64,
    end: u64,
) -> bool {
    &&& can_jump(
        v,
        color,
        contains_sq(kings_of(v, color), sq_of(start)),
        sq_of(start),
        sq_of(end),
    )
    &&& exists|d: u64| #[trigger] can_jump(
        apply_move(v, color, start, end),
        color,
        moved_king(v, color, start, end),
        sq_of(end),
        d,
    )
}

/// The color that moves after a legal move from `start` to `end`: the same
/// color while its capture sequence continues, the opponent otherwise.
pub open spec fn next_to_move(v: BoardView, color: PlayerColor, start: u64, end: u64)
    -> PlayerColor {
    if continues_capture(v, color, start, end) {
        color
    } else {
        other(color)
    }
}

/// The symbol standing on square `i`: a white or black man or king, or a
/// blank for an empty square.
pub open spec fn square_symbol(v: BoardView, i: u64) -> char {
    if contains_sq(v.white_men, i) {
        '○'
    } else if contains_sq(v.black_men, i) {
        '●'
    } else if contains_sq(v.white_kings, i) {
        '☆'
    } else if contains_sq(v.black_kings, i) {
        '★'
    } else {
        ' '
    }
}

/// The character at position `k` of a rendered board: rows from the top
/// down, eight square symbols each, a newline after each row.
pub open spec fn board_char(v: BoardView, k: int) -> char {
    if k % 9 == 8 {
        '\n'
    } else {
        square_symbol(v, (8 * (7 - k / 9) + k % 9) as u64)
    }
}

/// Forced capture: while `color` has any capture available anywhere on the
/// board, a proposed move that is not itself a capture is illegal, so
/// `make_move` refuses it and leaves the board unchanged.
pub proof fn lemma_forced_capture(v: BoardView, color: PlayerColor, start: u64, end: u64)
    requires
        has_capture(v, color),
        !can_jump(
            v,
            color,
            contains_sq(kings_of(v, color), sq_of(start)),
            sq_of(start),
            sq_of(end),
        ),
    ensures
        !move_legal(v, color, start, end),
{
}

/// Promotion: a man landing on the far row for its color comes out of the
/// move as a king, also when the landing ends a capture.
pub proof fn lemma_promotion(v: BoardView, color: PlayerColor, start: u64, end: u64)
    requires
        !contains_sq(kings_of(v, color), sq_of(start)),
        contains_sq(promotion_edge(color), sq_of(end)),
    ensures
        contains_sq(kings_of(apply_move(v, color, start, end), color), sq_of(end)),
{
    let e = sq_of(end);
    let s = sq_of(start);
    let king = contains_sq(kings_of(v, color), s);
    let v1 = if can_jump(v, color, king, s, e) {
        let m = jumped_sq(s, e);
        let opp_king = contains_sq(kings_of(v, other(color)), m);
        with_set(v, other(color), opp_king, set_of(v, other(color), opp_king) & !(1u64 << m))
    } else {
        v
    };
    let v2 = with_set(v1, color, king, set_of(v1, color, king) & !(1u64 << s));
    lemma_sq_ops(set_of(v2, color, true), (1u64 << e), e);
    lemma_single_member(set_of(v2, color, true), e);
}

/// Multi-jump: a capturing move that leaves a further capture available
/// from the landing square signals the same color to move again, and the
/// jumped piece is gone from the opponent's sets.
pub proof fn lemma_multi_jump(v: BoardView, color: PlayerColor, start: u64, end: u64)
    requires
        board_wf(v),
        continues_capture(v, color, start, end),
    ensures
        next_to_move(v, color, start, end) == color,
        !contains_sq(
            pieces_of(apply_move(v, color, start, end), other(color)),
            jumped_sq(sq_of(start), sq_of(end)),
        ),
{
    let s = sq_of(start);
    let e = sq_of(end);
    let king = contains_sq(kings_of(v, color), s);
    let opp = other(color);
    let m = jumped_sq(s, e);
    let opp_king = contains_sq(kings_of(v, opp), m);
    let removed = set_of(v, opp, opp_king) & !(1u64 << m);
    let v1 = with_set(v, opp, opp_king, removed);
    let result = apply_move(v, color, start, end);
    lemma_sq_ops(men_of(v, opp), kings_of(v, opp), m);
    lemma_sq_ops(set_of(v, opp, opp_king), (1u64 << m), m);
    lemma_sq_ops(men_of(v, opp) & kings_of(v, opp), 0, m);
    lemma_single_member(set_of(v, opp, opp_king), m);
    if contains_sq(men_of(v, opp), m) && contains_sq(kings_of(v, opp), m) {
        assert(contains_sq(men_of(v, opp) & kings_of(v, opp), m));
        assert(men_of(v, opp) & kings_of(v, opp) == 0);
        assert(false);
    }
    assert(men_of(result, opp) == men_of(v1, opp) && kings_of(result, opp) == kings_of(v1, opp));
    assert(!contains_sq(men_of(v1, opp), m) && !contains_sq(kings_of(v1, opp), m));
    lemma_sq_ops(men_of(result, opp), kings_of(result, opp), m);
}

/// Removing squares from one set keeps a board well-formed.
proof fn lemma_wf_remove(v: BoardView, color: PlayerColor, king: bool, m: u64)
    requires
        board_wf(v),
    ensures
        board_wf(with_set(v, color, king, set_of(v, color, king) & !m)),
        occupied_of(with_set(v, color, king, set_of(v, color, king) & !m)) & !occupied_of(v) == 0,
{
    let a = v.white_men;
    let b = v.black_men;
    let c = v.white_kings;
    let d = v.black_kings;
    match (color, king) {
        (PlayerColor::White, false) => {
            assert(a & b == 0 && a & c == 0 && a & d == 0 && (a | b | c | d) & !PLAYABLE_SQUARES
                == 0 ==> ((a & !m) & b == 0 && (a & !m) & c == 0 && (a & !m) & d == 0 && ((a & !m)
                | b | c | d) & !PLAYABLE_SQUARES == 0 && ((a & !m) | b | c | d) & !(a | b | c | d)
                == 0)) by (bit_vector);
        },
        (PlayerColor::Black, false) => {
            assert(a & b == 0 && b & c == 0 && b & d == 0 && (a | b | c | d) & !PLAYABLE_SQUARES
                == 0 ==> (a & (b & !m) == 0 && (b & !m) & c == 0 && (b & !m) & d == 0 && (a | (b
                & !m) | c | d) & !(a | b | c | d) == 0 && (a | (b & !m) | c | d)
                & !PLAYABLE_SQUARES == 0)) by (bit_vector);
        },
        (PlayerColor::White, true) => {
            assert(a & c == 0 && b & c == 0 && c & d == 0 && (a | b | c | d) & !PLAYABLE_SQUARES
                == 0 ==> (a & (c & !m) == 0 && b & (c & !m) == 0 && (c & !m) & d == 0 && (a | b
                | (c & !m) | d) & !PLAYABLE_SQUARES == 0 && (a | b | (c & !m) | d) & !(a | b | c
                | d) == 0)) by (bit_vector);
        },
        (PlayerColor::Black, true) => {
            assert(a & d == 0 && b & d == 0 && c & d == 0 && (a | b | c | d) & !PLAYABLE_SQUARES
                == 0 ==> (a & (d & !m) == 0 && b & (d & !m) == 0 && c & (d & !m) == 0 && (a | b
                | c | (d & !m)) & !PLAYABLE_SQUARES == 0 && (a | b | c | (d & !m)) & !(a | b | c
                | d) == 0)) by (bit_vector);
        },
    }
}

/// Adding empty playable squares to one set keeps a board well-formed.
proof fn lemma_wf_add(v: BoardView, color: PlayerColor, king: bool, q: u64)
    requires
        board_wf(v),
        q & occupied_of(v) == 0,
        q & !PLAYABLE_SQUARES == 0,
    ensures
        board_wf(with_set(v, color, king, set_of(v, color, king) | q)),
{
    let a = v.white_men;
    let b = v.black_men;
    let c = v.white_kings;
    let d = v.black_kings;
    match (color, king) {
        (PlayerColor::White, false) => {
            assert(a & b == 0 && a & c == 0 && a & d == 0 && (a | b | c | d) & !PLAYABLE_SQUARES
                == 0 && q & (a | b | c | d) == 0 && q & !PLAYABLE_SQUARES == 0 ==> ((a | q) & b
                == 0 && (a | q) & c == 0 && (a | q) & d == 0 && ((a | q) | b | c | d)
                & !PLAYABLE_SQUARES == 0)) by (bit_vector);
        },
        (PlayerColor::Black, false) => {
            assert(a & b == 0 && b & c == 0 && b & d == 0 && (a | b | c | d) & !PLAYABLE_SQUARES
                == 0 && q & (a | b | c | d) == 0 && q & !PLAYABLE_SQUARES == 0 ==> (a & (b | q)
                == 0 && (b | q) & c == 0 && (b | q) & d == 0 && (a | (b | q) | c | d)
                & !PLAYABLE_SQUARES == 0)) by (bit_vector);
        },
        (PlayerColor::White, true) => {
            assert(a & c == 0 && b & c == 0 && c & d == 0 && (a | b | c | d) & !PLAYABLE_SQUARES
                == 0 && q & (a | b | c | d) == 0 && q & !PLAYABLE_SQUARES == 0 ==> (a & (c | q)
                == 0 && b & (c | q) == 0 && (c | q) & d == 0 && (a | b | (c | q) | d)
                & !PLAYABLE_SQUARES == 0)) by (bit_vector);
        },
        (PlayerColor::Black, true) => {
            assert(a & d == 0 && b & d == 0 && c & d == 0 && (a | b | c | d) & !PLAYABLE_SQUARES
                == 0 && q & (a | b | c | d) == 0 && q & !PLAYABLE_SQUARES == 0 ==> (a & (d | q)
                == 0 && b & (d | q) == 0 && c & (d | q) == 0 && (a | b | c | (d | q))
                & !PLAYABLE_SQUARES == 0)) by (bit_vector);
        },
    }
}

/// The authoritative state of a game: four square sets, one per piece
/// kind, mutated only by `make_move`.
#[derive(Debug)]
pub struct Checkerboard {
    white_men: Bitboard,
    black_men: Bitboard,
    white_kings: Bitboard,
    black_kings: Bitboard,
}

impl View for Checkerboard {
    type V = BoardView;

    closed spec fn view(&self) -> BoardView {
        BoardView {
            white_men: self.white_men@,
            black_men: self.black_men@,
            white_kings: self.white_kings@,
            black_kings: self.black_kings@,
        }
    }
}

impl Checkerboard {
    /// Holds of every board value the crate ever constructs.
    #[verifier::type_invariant]
    pub(crate) open spec fn inv(self) -> bool {
        board_wf(self@)
    }

    /// A board with the standard starting position.
    pub fn new() -> (r: Checkerboard)
        ensures
            r@ == start_position(),
    {
        proof {
            assert(0x55AA55u64 & 0xAA55AA0000000000u64 == 0 && (forall|z: u64| #[trigger] (z
                & 0u64) == 0) && (0x55AA55u64 | 0xAA55AA0000000000u64 | 0u64 | 0u64)
                & !PLAYABLE_SQUARES == 0) by (bit_vector);
        }
        Checkerboard {
            white_men: Bitboard::from_u64(0x55AA55),
            black_men: Bitboard::from_u64(0xAA55AA0000000000),
            white_kings: Bitboard::new(),
            black_kings: Bitboard::new(),
        }
    }

    /// A board with exactly the given four square sets, or nothing if they
    /// do not form a well-formed board.
    pub fn from_masks(white_men: u64, black_men: u64, white_kings: u64, black_kings: u64) -> (r:
        Option<Checkerboard>)
        ensures
            ({
                let v = BoardView { white_men, black_men, white_kings, black_kings };
                &&& board_wf(v) ==> (r matches Some(b) && b@ == v)
                &&& !board_wf(v) ==> r is None
            }),
    {
        let occupied = white_men | black_men | white_kings | black_kings;
        if white_men & black_men == 0 && white_men & white_kings == 0 && white_men & black_kings
            == 0 && black_men & white_kings == 0 && black_men & black_kings == 0 && white_kings
            & black_kings == 0 && occupied & !PLAYABLE_SQUARES == 0 {
            Some(
                Checkerboard {
                    white_men: Bitboard::from_u64(white_men),
                    black_men: Bitboard::from_u64(black_men),
                    white_kings: Bitboard::from_u64(white_kings),
                    black_kings: Bitboard::from_u64(black_kings),
                },
            )
        } else {
            None
        }
    }

    /// The conventional index of the square set holding pieces of `color`
    /// with the given rank: men first, kings after, white before black.
    pub fn index(color: PlayerColor, king: bool) -> (r: usize)
        ensures
            r == match (color, king) {
                (PlayerColor::White, false) => 0usize,
                (PlayerColor::Black, false) => 1usize,
                (PlayerColor::White, true) => 2usize,
                (PlayerColor::Black, true) => 3usize,
            },
    {
        match (color, king) {
            (PlayerColor::White, false) => 0,
            (PlayerColor::Black, false) => 1,
            (PlayerColor::White, true) => 2,
            (PlayerColor::Black, true) => 3,
        }
    }

    /// Take the squares of `square` out of the set of (`color`, `king`).
    fn remove_piece(&mut self, color: PlayerColor, king: bool, square: Bitboard)
        ensures
            final(self)@ == with_set(
                old(self)@,
                color,
                king,
                set_of(old(self)@, color, king) & !square@,
            ),
    {
        proof {
            use_type_invariant(&*self);
            lemma_wf_remove(self@, color, king, square@);
        }
        match (color, king) {
            (PlayerColor::White, false) => {
                self.white_men = self.white_men.without(square);
            },
            (PlayerColor::Black, false) => {
                self.black_men = self.black_men.without(square);
            },
            (PlayerColor::White, true) => {
                self.white_kings = self.white_kings.without(square);
            },
            (PlayerColor::Black, true) => {
                self.black_kings = self.black_kings.without(square);
            },
        }
    }

    /// Put the squares of `square` — empty and playable — into the set of
    /// (`color`, `king`).
    fn add_piece(&mut self, color: PlayerColor, king: bool, square: Bitboard)
        requires
            square@ & occupied_of(old(self)@) == 0,
            square@ & !PLAYABLE_SQUARES == 0,
        ensures
            final(self)@ == with_set(
                old(self)@,
                color,
                king,
                set_of(old(self)@, color, king) | square@,
            ),
    {
        proof {
            use_type_invariant(&*self);
            lemma_wf_add(self@, color, king, square@);
        }
        match (color, king) {
            (PlayerColor::White, false) => {
                self.white_men = self.white_men.union(square);
            },
            (PlayerColor::Black, false) => {
                self.black_men = self.black_men.union(square);
            },
            (PlayerColor::White, true) => {
                self.white_kings = self.white_kings.union(square);
            },
            (PlayerColor::Black, true) => {
                self.black_kings = self.black_kings.union(square);
            },
        }
    }

    /// Attempt to move a piece of `color` from `start_square` to
    /// `end_square`.
    ///
    /// A move that `move_legal` refuses — malformed squares, no piece of
    /// `color` on the start square, an unreachable destination, or a plain
    /// step while a capture is available somewhere — leaves the board
    /// untouched and returns `Invalid`.  A legal move is applied as
    /// `apply_move` describes, promotion included, and the result carries
    /// the color to move next: the same color exactly when the capture
    /// sequence continues from the landing square.
    pub fn make_move(
        &mut self,
        color: PlayerColor,
        start_square: Bitboard,
        end_square: Bitboard,
    ) -> (r: MoveResult)
        ensures
            !move_legal(old(self)@, color, start_square@, end_square@) ==> (r
                == MoveResult::Invalid && final(self)@ == old(self)@),
            move_legal(old(self)@, color, start_square@, end_square@) ==> (final(self)@
                == apply_move(old(self)@, color, start_square@, end_square@) && r
                == MoveResult::Valid(
                next_to_move(old(self)@, color, start_square@, end_square@),
            )),
    {
        proof {
            use_type_invariant(&*self);
            lemma_single(start_square@);
            lemma_single(end_square@);
        }
        if !start_square.is_single_square() || !end_square.is_single_square() {
            return MoveResult::Invalid;
        }
        let ghost v = self@;
        let ghost s = sq_of(start_square@);
        let ghost e = sq_of(end_square@);
        proof {
            lemma_single_member(kings_of(v, color), s);
            lemma_single_member(men_of(v, color), s);
        }
        let king = start_square.intersect(self.kings(color)).is_not_empty();
        if !king && start_square.intersect(self.men(color)).is_empty() {
            return MoveResult::Invalid;
        }
        proof {
            // The start square holds a piece, so it is playable.
            lemma_sq_ops(v.white_men, v.black_men, s);
            lemma_sq_ops(v.white_men | v.black_men, v.white_kings, s);
            lemma_sq_ops((v.white_men | v.black_men) | v.white_kings, v.black_kings, s);
            lemma_sq_ops(occupied_of(v), PLAYABLE_SQUARES, s);
            lemma_single_member(PLAYABLE_SQUARES, s);
        }
        let moves_set = piece_moves(&*self, color, king, start_square);
        let move_bb = moves_set.intersect(end_square);
        let captures_set = piece_captures(&*self, color, king, start_square);
        let capture_bb = captures_set.intersect(end_square);
        let must_capture = color_captures(&*self, color).is_not_empty();
        proof {
            lemma_single_member(moves_set@, e);
            lemma_single_member(captures_set@, e);
            lemma_sq_ops(capture_bb@, move_bb@, e);
            if contains_sq(moves_set@, e) {
                let s2 = choose|s2: u64|
                    #[trigger] contains_sq(start_square@, s2) && can_step(v, color, king, s2, e);
                assert(s2 == s);
            }
            if can_step(v, color, king, s, e) {
                assert(contains_sq(start_square@, s));
            }
            if contains_sq(captures_set@, e) {
                let s2 = choose|s2: u64|
                    #[trigger] contains_sq(start_square@, s2) && can_jump(v, color, king, s2, e);
                assert(s2 == s);
            }
            if can_jump(v, color, king, s, e) {
                assert(contains_sq(start_square@, s));
            }
            assert(move_bb@ != 0 <==> can_step(v, color, king, s, e));
            assert(capture_bb@ != 0 <==> can_jump(v, color, king, s, e));
        }
        let is_capture = capture_bb.is_not_empty();
        if capture_bb.union(move_bb).is_empty() || (!is_capture && must_capture) {
            return MoveResult::Invalid;
        }
        proof {
            assert(move_legal(v, color, start_square@, end_square@));
        }
        let opp = color.opposite();
        let ghost m = jumped_sq(s, e);
        if is_capture {
            let opp_square = Bitboard::midsquare(start_square, end_square);
            proof {
                assert(opp_square@ == 1u64 << m);
                lemma_single_member(kings_of(v, opp), m);
            }
            let opp_king = opp_square.intersect(self.kings(opp)).is_not_empty();
            self.remove_piece(opp, opp_king, opp_square);
        }
        proof {
            if is_capture {
                let opp_king = contains_sq(kings_of(v, other(color)), m);
                lemma_wf_remove(
                    v,
                    other(color),
                    opp_king,
                    (1u64 << m),
                );
            }
            lemma_wf_remove(
                if is_capture {
                    let opp_king = contains_sq(kings_of(v, other(color)), m);
                    with_set(
                        v,
                        other(color),
                        opp_king,
                        set_of(v, other(color), opp_king) & !(1u64 << m),
                    )
                } else {
                    v
                },
                color,
                king,
                (1u64 << s),
            );
        }
        self.remove_piece(color, king, start_square);
        let edge = match color {
            PlayerColor::White => TOP_EDGE,
            PlayerColor::Black => BOTTOM_EDGE,
        };
        proof {
            lemma_single_member(edge, e);
        }
        let promoted = end_square.intersect(Bitboard::from_u64(edge)).is_not_empty() && !king;
        proof {
            // The landing square is playable and empty, so the piece may be
            // put down on it.
            lemma_dest_playable(s, e);
            lemma_single_member(PLAYABLE_SQUARES, e);
            lemma_sq_ops(occupied_of(v), 0, e);
            lemma_single_member(occupied_of(v), e);
            let ghost v1 = if is_capture {
                let opp_king = contains_sq(kings_of(v, other(color)), m);
                with_set(v, other(color), opp_king, set_of(v, other(color), opp_king) & !(1u64
                    << m))
            } else {
                v
            };
            if is_capture {
                lemma_subset_clear((1u64 << e), occupied_of(v1), occupied_of(v));
            }
            lemma_subset_clear((1u64 << e), occupied_of(self@), occupied_of(v1));
        }
        if promoted {
            self.add_piece(color, true, end_square);
        } else {
            self.add_piece(color, king, end_square);
        }
        proof {
            assert(self@ == apply_move(v, color, start_square@, end_square@));
        }
        let now_king = king || promoted;
        let more_captures = if is_capture {
            let pc = piece_captures(&*self, color, now_king, end_square);
            proof {
                lemma_nonempty(pc@);
                if pc@ != 0 {
                    let i = choose|i: u64| contains_sq(pc@, i);
                    assert(contains_sq(pc@, i));
                    assert(jump_dest(self@, color, now_king, end_square@, i));
                    let s2 = choose|s2: u64|
                        #[trigger] contains_sq(end_square@, s2) && can_jump(
                            self@,
                            color,
                            now_king,
                            s2,
                            i,
                        );
                    assert(s2 == e);
                    assert(now_king == moved_king(v, color, start_square@, end_square@));
                    assert(self@ == apply_move(v, color, start_square@, end_square@));
                    assert(can_jump(
                        apply_move(v, color, start_square@, end_square@),
                        color,
                        moved_king(v, color, start_square@, end_square@),
                        sq_of(end_square@),
                        i,
                    ));
                    assert(continues_capture(v, color, start_square@, end_square@));
                }
                if continues_capture(v, color, start_square@, end_square@) {
                    let d = choose|d: u64|
                        #[trigger] can_jump(
                            apply_move(v, color, start_square@, end_square@),
                            color,
                            moved_king(v, color, start_square@, end_square@),
                            sq_of(end_square@),
                            d,
                        );
                    assert(can_jump(self@, color, now_king, e, d));
                    assert(contains_sq(end_square@, e));
                    assert(jump_dest(self@, color, now_king, end_square@, d));
                    assert(contains_sq(pc@, d));
                }
                assert(pc@ != 0 ==> continues_capture(v, color, start_square@, end_square@));
                assert(continues_capture(v, color, start_square@, end_square@) ==> pc@ != 0);
            }
            pc.is_not_empty()
        } else {
            proof {
                assert(!continues_capture(v, color, start_square@, end_square@));
            }
            false
        };
        if more_captures {
            MoveResult::Valid(color)
        } else {
            MoveResult::Valid(opp)
        }
    }

    /// The men of `color`.
    pub fn men(&self, color: PlayerColor) -> (r: Bitboard)
        ensures
            r@ == men_of(self@, color),
    {
        match color {
            PlayerColor::White => self.white_men,
            PlayerColor::Black => self.black_men,
        }
    }

    /// The kings of `color`.
    pub fn kings(&self, color: PlayerColor) -> (r: Bitboard)
        ensures
            r@ == kings_of(self@, color),
    {
        match color {
            PlayerColor::White => self.white_kings,
            PlayerColor::Black => self.black_kings,
        }
    }

    /// All pieces of `color`.
    pub fn pieces(&self, color: PlayerColor) -> (r: Bitboard)
        ensures
            r@ == pieces_of(self@, color),
    {
        self.men(color).union(self.kings(color))
    }

    /// All pieces of the color opposing `color`.
    pub fn opponents(&self, color: PlayerColor) -> (r: Bitboard)
        ensures
            r@ == opponents_of(self@, color),
    {
        self.pieces(color.opposite())
    }

    /// The symbol standing on square `i`, as a one-character string.
    fn symbol_at(&self, i: u64) -> (r: &'static str)
        requires
            i < 64,
        ensures
            r@.len() == 1,
            r@[0] == square_symbol(self@, i),
    {
        proof {
            reveal_strlit("○");
            reveal_strlit("●");
            reveal_strlit("☆");
            reveal_strlit("★");
            reveal_strlit(" ");
        }
        if (self.white_men.to_u64() >> i) & 1 == 1 {
            "○"
        } else if (self.black_men.to_u64() >> i) & 1 == 1 {
            "●"
        } else if (self.white_kings.to_u64() >> i) & 1 == 1 {
            "☆"
        } else if (self.black_kings.to_u64() >> i) & 1 == 1 {
            "★"
        } else {
            " "
        }
    }

    /// The whole board as a fixed-length sequence of per-square symbols in
    /// row-major order from square 0 up, for rendering.
    pub fn raw_string(&self) -> (r: String)
        ensures
            r@.len() == 64,
            forall|i: int| 0 <= i < 64 ==> r@[i] == square_symbol(self@, i as u64),
    {
        proof {
            reveal_strlit("");
        }
        let mut s = String::from_str("");
        let mut i: u64 = 0;
        while i < 64
            invariant
                i <= 64,
                s@.len() == i,
                forall|j: int| 0 <= j < i ==> s@[j] == square_symbol(self@, j as u64),
            decreases 64 - i,
        {
            s.append(self.symbol_at(i));
            i = i + 1;
        }
        s
    }

    /// The board as text: rows from the top down, eight square symbols
    /// each from the left column to the right, a newline after each row.
    pub fn render(&self) -> (r: String)
        ensures
            r@.len() == 72,
            forall|k: int| 0 <= k < 72 ==> r@[k] == board_char(self@, k),
    {
        proof {
            reveal_strlit("");
        }
        let mut s = String::from_str("");
        let mut k: u64 = 0;
        while k < 72
            invariant
                k <= 72,
                s@.len() == k,
                forall|j: int| 0 <= j < k ==> s@[j] == board_char(self@, j),
            decreases 72 - k,
        {
            proof {
                reveal_strlit("\n");
            }
            if k % 9 == 8 {
                s.append("\n");
            } else {
                proof {
                    assert(k < 72 && k % 9 != 8 ==> k / 9 <= 7 && 8 * (7 - k / 9) + k % 9 < 64)
                        by (bit_vector);
                }
                let sq = 8 * (7 - k / 9) + k % 9;
                s.append(self.symbol_at(sq));
            }
            k = k + 1;
        }
        s
    }

    /// Every empty square.
    pub fn empty(&self) -> (r: Bitboard)
        ensures
            r@ == empty_of(self@),
    {
        self.white_men.union(self.black_men).union(self.white_kings).union(
            self.black_kings,
        ).complement()
    }
}

} // verus!

//! A 64-square board set packed into one `u64`, together with the fixed
//! edge masks that the move generator pairs with its directional shifts.

use vstd::prelude::*;
use vstd::std_specs::bits::{axiom_u64_trailing_zeros, u64_trailing_zeros};
use vstd::string::StringExecFns;

verus! {

/// The playable squares of column 0: every diagonal move leaving the board
/// on the left starts from one of these.
pub const LEFT_EDGE: u64 = 0x0001_0001_0001_0001;

/// The playable squares of column 7.
pub const RIGHT_EDGE: u64 = 0x8000_8000_8000_8000;

/// Row 0, the whole bottom row.
pub const BOTTOM_EDGE: u64 = 0x0000_0000_0000_00FF;

/// Row 7, the whole top row.
pub const TOP_EDGE: u64 = 0xFF00_0000_0000_0000;

/// The playable squares of columns 0 and 1: a two-square jump leaving the
/// board on the left starts from one of these.
pub const LEFT_TWO: u64 = 0x0201_0201_0201_0201;

/// The playable squares of columns 6 and 7.
pub const RIGHT_TWO: u64 = 0x8040_8040_8040_8040;

/// Rows 0 and 1: the bottom row doubled inward, for two-square jumps.
pub const BOTTOM_TWO: u64 = 0x0000_0000_0000_FFFF;

/// Rows 6 and 7: the top row doubled inward, for two-square jumps.
pub const TOP_TWO: u64 = 0xFFFF_0000_0000_0000;

/// The 32 dark squares that checkers is played on: square `i` is playable
/// iff its row and column have the same parity.
pub const PLAYABLE_SQUARES: u64 = 0xAA55_AA55_AA55_AA55;

/// Square `i` is a member of the set `x`.
pub open spec fn contains_sq(x: u64, i: u64) -> bool {
    i < 64 && (x >> i) & 1 == 1
}

/// The board row (rank) of square `i`.
pub open spec fn row(i: u64) -> u64 {
    i / 8
}

/// The board column (file) of square `i`.
pub open spec fn col(i: u64) -> u64 {
    i % 8
}

/// `x` has exactly one square in it.
pub open spec fn is_single(x: u64) -> bool {
    exists|i: u64| i < 64 && x == (1u64 << i)
}

/// The index of the lowest square of `x`; for a single-square set, the
/// index of its one square.
pub open spec fn sq_of(x: u64) -> u64 {
    u64_trailing_zeros(x) as u64
}

/// `is_single` agrees with the "clear the lowest bit" test that the
/// executable code uses, and a single-square set is determined by `sq_of`.
pub proof fn lemma_single(x: u64)
    ensures
        is_single(x) <==> (x != 0 && x & ((x - 1) as u64) == 0),
        is_single(x) ==> sq_of(x) < 64 && x == (1u64 << sq_of(x)),
{
    if is_single(x) {
        let i = choose|i: u64| i < 64 && x == (1u64 << i);
        assert(i < 64 && x == (1u64 << i) ==> x != 0 && x & ((x - 1) as u64) == 0)
            by (bit_vector);
        axiom_u64_trailing_zeros(x);
        let t = u64_trailing_zeros(x) as u64;
        assert(i < 64 && t < 64 && ((1u64 << i) >> t) & 1 == 1 ==> t == i) by (bit_vector);
    }
    if x != 0 && x & ((x - 1) as u64) == 0 {
        axiom_u64_trailing_zeros(x);
        let t = u64_trailing_zeros(x) as u64;
        assert(x != 0 && x & ((x - 1) as u64) == 0 && t < 64 && (x >> t) & 1 == 1 ==> x == (
        1u64 << t)) by (bit_vector);
        assert(x == (1u64 << t));
    }
}

/// A set is non-empty exactly when some square is a member of it.
pub proof fn lemma_nonempty(x: u64)
    ensures
        (x != 0) <==> exists|i: u64| contains_sq(x, i),
{
    if x != 0 {
        axiom_u64_trailing_zeros(x);
        let t = u64_trailing_zeros(x) as u64;
        assert(contains_sq(x, t));
    }
    if exists|i: u64| contains_sq(x, i) {
        let i = choose|i: u64| contains_sq(x, i);
        assert(i < 64 && (x >> i) & 1 == 1 ==> x != 0) by (bit_vector);
    }
}

/// Membership facts about the set operations, used wherever a union,
/// intersection or difference is read back square by square.
pub proof fn lemma_sq_ops(x: u64, y: u64, i: u64)
    by (bit_vector)
    ensures
        contains_sq(x | y, i) <==> (contains_sq(x, i) || contains_sq(y, i)),
        contains_sq(x & y, i) <==> (contains_sq(x, i) && contains_sq(y, i)),
        contains_sq(x & !y, i) <==> (contains_sq(x, i) && !contains_sq(y, i)),
        i < 64 ==> (contains_sq(!x, i) <==> !contains_sq(x, i)),
        !contains_sq(0u64, i),
        (x | y) == 0 <==> (x == 0 && y == 0),
{
}

/// A set clear of `o` is clear of any subset of `o`.
pub proof fn lemma_subset_clear(q: u64, o2: u64, o: u64)
    by (bit_vector)
    requires
        q & o == 0,
        o2 & !o == 0,
    ensures
        q & o2 == 0,
{
}

/// Intersection with a single-square set tests membership of its square.
pub proof fn lemma_single_member(y: u64, i: u64)
    by (bit_vector)
    requires
        i < 64,
    ensures
        ((1u64 << i) & y) != 0 <==> contains_sq(y, i),
        (y & (1u64 << i)) != 0 <==> contains_sq(y, i),
        contains_sq(y, i) ==> ((1u64 << i) & y) == (1u64 << i),
        contains_sq(y, i) ==> ((1u64 << i) & !y) == 0,
        !contains_sq(y, i) ==> ((1u64 << i) & y) == 0,
        contains_sq((1u64 << i), i),
        forall|j: u64| contains_sq(1u64 << i, j) ==> j == i,
{
}

/// Squares `i` and `j` are diagonal neighbours: one step apart on a diagonal.
pub open spec fn diag_adjacent(i: u64, j: u64) -> bool {
    i < 64 && j < 64 && (row(j) == row(i) + 1 || row(i) == row(j) + 1) && (col(j) == col(i) + 1
        || col(i) == col(j) + 1)
}

/// Squares `i` and `j` lie on one diagonal exactly two steps apart: the
/// shape of a jump, with one square directly between them.
pub open spec fn diag_two_apart(i: u64, j: u64) -> bool {
    i < 64 && j < 64 && (row(j) == row(i) + 2 || row(i) == row(j) + 2) && (col(j) == col(i) + 2
        || col(i) == col(j) + 2)
}

/// What `Bitboard::midsquare` returns: the single square halfway between
/// two single squares a jump apart, and the empty set for every other pair.
pub open spec fn midsquare_spec(a: u64, b: u64) -> u64 {
    if is_single(a) && is_single(b) && diag_two_apart(sq_of(a), sq_of(b)) {
        1u64 << (((sq_of(a) + sq_of(b)) / 2) as u64)
    } else {
        0
    }
}

/// For single squares on one diagonal exactly two steps apart, `midsquare`
/// finds the unique square between them — one diagonal step from each end;
/// for every other pair of arguments it finds the empty set.
pub proof fn lemma_midsquare_characterization(a: u64, b: u64)
    ensures
        (is_single(a) && is_single(b) && diag_two_apart(sq_of(a), sq_of(b))) ==> ({
            let m = ((sq_of(a) + sq_of(b)) / 2) as u64;
            &&& midsquare_spec(a, b) == (1u64 << m)
            &&& is_single(midsquare_spec(a, b))
            &&& diag_adjacent(sq_of(a), m)
            &&& diag_adjacent(m, sq_of(b))
        }),
        !(is_single(a) && is_single(b) && diag_two_apart(sq_of(a), sq_of(b))) ==> midsquare_spec(
            a,
            b,
        ) == 0,
{
    if is_single(a) && is_single(b) && diag_two_apart(sq_of(a), sq_of(b)) {
        let i = sq_of(a);
        let j = sq_of(b);
        let m = ((i + j) / 2) as u64;
        assert(i < 64 && j < 64 && (j / 8 == i / 8 + 2 || i / 8 == j / 8 + 2) && (j % 8 == i % 8
            + 2 || i % 8 == j % 8 + 2) ==> {
            let mid = ((i + j) / 2) as u64;
            &&& mid < 64
            &&& (mid / 8 == i / 8 + 1 || i / 8 == mid / 8 + 1)
            &&& (mid % 8 == i % 8 + 1 || i % 8 == mid % 8 + 1)
            &&& (j / 8 == mid / 8 + 1 || mid / 8 == j / 8 + 1)
            &&& (j % 8 == mid % 8 + 1 || mid % 8 == j % 8 + 1)
        }) by (bit_vector);
        assert(is_single(1u64 << m));
    }
}

/// The character at position `k` of a rendered board set: rows from the
/// top down, eight `0`/`1` digits each, a newline after each row.
pub open spec fn bit_char(x: u64, k: int) -> char {
    if k % 9 == 8 {
        '\n'
    } else if contains_sq(x, (8 * (7 - k / 9) + k % 9) as u64) {
        '1'
    } else {
        '0'
    }
}

/// An arbitrary subset of the 64 board squares, packed as a bit per square.
///
/// The type is a plain set: it does not know which squares are playable, or
/// which shift pairs with which edge mask; both are the move generator's
/// knowledge.
#[derive(Clone, Copy, Debug, PartialEq, Eq, Structural)]
pub struct Bitboard {
    bb: u64,
}

impl View for Bitboard {
    type V = u64;

    closed spec fn view(&self) -> u64 {
        self.bb
    }
}

impl Bitboard {
    /// The empty set.
    pub fn new() -> (r: Bitboard)
        ensures
            r@ == 0u64,
    {
        Bitboard { bb: 0 }
    }

    /// The set whose members are the squares of the set bits of `bb`.
    pub fn from_u64(bb: u64) -> (r: Bitboard)
        ensures
            r@ == bb,
    {
        Bitboard { bb }
    }

    /// The packed representation back again.
    pub fn to_u64(&self) -> (r: u64)
        ensures
            r == self@,
    {
        self.bb
    }

    /// Exactly one square is a member.
    pub fn is_single_square(&self) -> (r: bool)
        ensures
            r == is_single(self@),
    {
        proof {
            lemma_single(self.bb);
        }
        let bb = self.bb;
        bb != 0 && (bb & (bb - 1)) == 0
    }

    /// The square halfway between two single squares a jump apart.
    ///
    /// If `left` and `right` are single squares lying on one diagonal
    /// exactly two steps apart, this is the single square between them;
    /// for every other pair of arguments it is the empty set.
    pub fn midsquare(left: Bitboard, right: Bitboard) -> (r: Bitboard)
        ensures
            r@ == midsquare_spec(left@, right@),
    {
        proof {
            lemma_single(left@);
            lemma_single(right@);
        }
        if !left.is_single_square() || !right.is_single_square() {
            return Bitboard::new();
        }
        let i = left.bb.trailing_zeros() as u64;
        let j = right.bb.trailing_zeros() as u64;
        let lo = if i <= j {
            i
        } else {
            j
        };
        let hi = if i <= j {
            j
        } else {
            i
        };
        let d = hi - lo;
        proof {
            assert(lo < 64 && hi < 64 && lo <= hi ==> {
                let d2 = (hi - lo) as u64;
                &&& ((d2 == 14 && lo % 8 >= 2) || (d2 == 18 && lo % 8 <= 5)) <==> ((hi / 8 == lo
                    / 8 + 2 || lo / 8 == hi / 8 + 2) && (hi % 8 == lo % 8 + 2 || lo % 8 == hi % 8
                    + 2))
                &&& (lo + hi) / 2 == lo + d2 / 2
            }) by (bit_vector);
        }
        if (d == 14 && lo % 8 >= 2) || (d == 18 && lo % 8 <= 5) {
            Bitboard::from_u64(1u64 << (lo + d / 2))
        } else {
            Bitboard::new()
        }
    }

    /// No square is a member.
    pub fn is_empty(&self) -> (r: bool)
        ensures
            r == (self@ == 0),
    {
        self.bb == 0
    }

    /// Some square is a member.
    pub fn is_not_empty(&self) -> (r: bool)
        ensures
            r == (self@ != 0),
    {
        self.bb != 0
    }

    /// Set union.
    pub fn union(self, rhs: Bitboard) -> (r: Bitboard)
        ensures
            r@ == self@ | rhs@,
    {
        Bitboard { bb: self.bb | rhs.bb }
    }

    /// Set intersection.
    pub fn intersect(self, rhs: Bitboard) -> (r: Bitboard)
        ensures
            r@ == self@ & rhs@,
    {
        Bitboard { bb: self.bb & rhs.bb }
    }

    /// Symmetric difference.
    pub fn sym_diff(self, rhs: Bitboard) -> (r: Bitboard)
        ensures
            r@ == self@ ^ rhs@,
    {
        Bitboard { bb: self.bb ^ rhs.bb }
    }

    /// Set complement.
    pub fn complement(self) -> (r: Bitboard)
        ensures
            r@ == !self@,
    {
        Bitboard { bb: !self.bb }
    }

    /// Set difference: the members of `self` that are not in `rhs`.
    pub fn without(self, rhs: Bitboard) -> (r: Bitboard)
        ensures
            r@ == self@ & !rhs@,
    {
        Bitboard { bb: self.bb & !rhs.bb }
    }

    /// The board as text: rows from the top down, eight `0`/`1` digits
    /// each from the left column to the right, a newline after each row.
    pub fn render(&self) -> (r: String)
        ensures
            r@.len() == 72,
            forall|k: int| 0 <= k < 72 ==> r@[k] == bit_char(self@, k),
    {
        proof {
            reveal_strlit("");
        }
        let mut s = String::from_str("");
        let mut k: u64 = 0;
        while k < 72
            invariant
                k <= 72,
                s@.len() == k,
                forall|j: int| 0 <= j < k ==> s@[j] == bit_char(self@, j),
            decreases 72 - k,
        {
            proof {
                reveal_strlit("0");
                reveal_strlit("1");
                reveal_strlit("\n");
            }
            if k % 9 == 8 {
                s.append("\n");
            } else {
                proof {
                    assert(k < 72 && k % 9 != 8 ==> k / 9 <= 7 && 8 * (7 - k / 9) + k % 9 < 64)
                        by (bit_vector);
                }
                let sq = 8 * (7 - k / 9) + k % 9;
                if (self.bb >> sq) & 1 == 1 {
                    s.append("1");
                } else {
                    s.append("0");
                }
            }
            k = k + 1;
        }
        s
    }

    /// Shift every square up by `k` positions, after first excluding the
    /// squares of `excl`.  The caller supplies the edge mask that keeps the
    /// shift from wrapping across the board edge.
    pub fn shl_masked(self, excl: u64, k: u64) -> (r: Bitboard)
        requires
            k < 64,
        ensures
            r@ == (self@ & !excl) << k,
    {
        Bitboard { bb: (self.bb & !excl) << k }
    }

    /// Shift every square down by `k` positions, after first excluding the
    /// squares of `excl`.
    pub fn shr_masked(self, excl: u64, k: u64) -> (r: Bitboard)
        requires
            k < 64,
        ensures
            r@ == (self@ & !excl) >> k,
    {
        Bitboard { bb: (self.bb & !excl) >> k }
    }

    /// Shift every square up by `k` positions.
    pub fn shl(self, k: u64) -> (r: Bitboard)
        requires
            k < 64,
        ensures
            r@ == self@ << k,
    {
        Bitboard { bb: self.bb << k }
    }

    /// Shift every square down by `k` positions.
    pub fn shr(self, k: u64) -> (r: Bitboard)
        requires
            k < 64,
        ensures
            r@ == self@ >> k,
    {
        Bitboard { bb: self.bb >> k }
    }
}

} // verus!

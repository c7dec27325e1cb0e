//! Rule-by-rule tests: the midpoint square, the starting position, the
//! generators, forced capture, promotion, multi-jump sequencing, and the
//! terminal-state judgment.

use checkers::bitboard::{Bitboard, PLAYABLE_SQUARES};
use checkers::game::{Checkerboard, MoveResult, PlayerColor};
use checkers::moves::{color_captures, color_moves, piece_captures, piece_moves};
use checkers::session::{CheckersGame, GameResult};

#[test]
fn midsquare_rejects_bad_pairs() {
    let empty = Bitboard::new();
    // same square
    assert_eq!(
        Bitboard::midsquare(Bitboard::from_u64(1 << 27), Bitboard::from_u64(1 << 27)),
        empty
    );
    // same row, not a diagonal
    assert_eq!(
        Bitboard::midsquare(Bitboard::from_u64(1 << 0), Bitboard::from_u64(1 << 4)),
        empty
    );
    // diagonal but one step apart
    assert_eq!(
        Bitboard::midsquare(Bitboard::from_u64(1 << 0), Bitboard::from_u64(1 << 9)),
        empty
    );
    // offset fourteen across the board edge is no diagonal
    assert_eq!(
        Bitboard::midsquare(Bitboard::from_u64(1 << 0), Bitboard::from_u64(1 << 14)),
        empty
    );
    // not a single square
    assert_eq!(
        Bitboard::midsquare(Bitboard::from_u64(3), Bitboard::from_u64(1 << 41)),
        empty
    );
    assert_eq!(
        Bitboard::midsquare(Bitboard::new(), Bitboard::from_u64(1 << 41)),
        empty
    );
    // a genuine down-left jump, both orders
    assert_eq!(
        Bitboard::midsquare(Bitboard::from_u64(1 << 41), Bitboard::from_u64(1 << 27)),
        Bitboard::from_u64(1 << 34)
    );
    assert_eq!(
        Bitboard::midsquare(Bitboard::from_u64(1 << 6), Bitboard::from_u64(1 << 20)),
        Bitboard::from_u64(1 << 13)
    );
}

#[test]
fn starting_position_counts() {
    let board = Checkerboard::new();
    let wm = board.men(PlayerColor::White).to_u64();
    let bm = board.men(PlayerColor::Black).to_u64();
    assert_eq!(wm.count_ones(), 12);
    assert_eq!(bm.count_ones(), 12);
    assert_eq!(board.kings(PlayerColor::White).to_u64(), 0);
    assert_eq!(board.kings(PlayerColor::Black).to_u64(), 0);
    // every man stands on a playable square, the back-most three rows each
    assert_eq!(wm, PLAYABLE_SQUARES & 0xFFFFFF);
    assert_eq!(bm, PLAYABLE_SQUARES & 0xFFFFFF00_00000000);
    // the empty set covers exactly the rest of the board
    assert_eq!(board.empty().to_u64(), !(wm | bm));
}

#[test]
fn generated_destinations_are_empty_squares() {
    let mut board = Checkerboard::new();
    board.make_move(
        PlayerColor::White,
        Bitboard::from_u64(1 << 20),
        Bitboard::from_u64(1 << 27),
    );
    let occupied = !board.empty().to_u64();
    for color in [PlayerColor::White, PlayerColor::Black] {
        for king in [false, true] {
            let men = board.men(color);
            assert_eq!(piece_moves(&board, color, king, men).to_u64() & occupied, 0);
            assert_eq!(piece_captures(&board, color, king, men).to_u64() & occupied, 0);
        }
        assert_eq!(color_moves(&board, color).to_u64() & occupied, 0);
        assert_eq!(color_captures(&board, color).to_u64() & occupied, 0);
    }
}

#[test]
fn forced_capture_refuses_plain_step() {
    // a white man on 18 must jump the black man on 25
    let mut board = Checkerboard::from_masks(1 << 18, 1 << 25, 0, 0).unwrap();
    assert_ne!(color_captures(&board, PlayerColor::White).to_u64(), 0);
    let before = board.raw_string();
    let result = board.make_move(
        PlayerColor::White,
        Bitboard::from_u64(1 << 18),
        Bitboard::from_u64(1 << 27),
    );
    assert_eq!(result, MoveResult::Invalid);
    assert_eq!(board.raw_string(), before);
}

#[test]
fn promotion_on_plain_step() {
    let mut board = Checkerboard::from_masks(1 << 48, 1 << 9, 0, 0).unwrap();
    let result = board.make_move(
        PlayerColor::White,
        Bitboard::from_u64(1 << 48),
        Bitboard::from_u64(1 << 57),
    );
    assert_eq!(result, MoveResult::Valid(PlayerColor::Black));
    assert_eq!(board.kings(PlayerColor::White).to_u64(), 1 << 57);
    assert_eq!(board.men(PlayerColor::White).to_u64(), 0);
}

#[test]
fn promotion_at_end_of_capture() {
    // a white man on 43 jumps the black man on 50 and lands on the top row
    let mut board = Checkerboard::from_masks(1 << 43, (1 << 50) | (1 << 9), 0, 0).unwrap();
    let result = board.make_move(
        PlayerColor::White,
        Bitboard::from_u64(1 << 43),
        Bitboard::from_u64(1 << 57),
    );
    assert_eq!(result, MoveResult::Valid(PlayerColor::Black));
    assert_eq!(board.kings(PlayerColor::White).to_u64(), 1 << 57);
    assert_eq!(board.men(PlayerColor::White).to_u64(), 0);
    assert_eq!(board.men(PlayerColor::Black).to_u64(), 1 << 9);
}

#[test]
fn promotion_can_continue_capturing_as_king() {
    // a white man on 45 jumps 52, promotes on 59, and the new king still
    // has a jump over 50: the same color is signalled to move again
    let mut board =
        Checkerboard::from_masks(1 << 45, (1 << 52) | (1 << 50), 0, 0).unwrap();
    let result = board.make_move(
        PlayerColor::White,
        Bitboard::from_u64(1 << 45),
        Bitboard::from_u64(1 << 59),
    );
    assert_eq!(result, MoveResult::Valid(PlayerColor::White));
    assert_eq!(board.kings(PlayerColor::White).to_u64(), 1 << 59);
    let follow_up = board.make_move(
        PlayerColor::White,
        Bitboard::from_u64(1 << 59),
        Bitboard::from_u64(1 << 41),
    );
    assert_eq!(follow_up, MoveResult::Valid(PlayerColor::Black));
    assert_eq!(board.men(PlayerColor::Black).to_u64(), 0);
}

#[test]
fn multi_jump_signals_same_color() {
    // the white man on 18 jumps the black man on 25 to 32, where a further
    // jump over 41 waits: the result signals white to move again
    let mut board = Checkerboard::from_masks(1 << 18, (1 << 25) | (1 << 41), 0, 0).unwrap();
    let result = board.make_move(
        PlayerColor::White,
        Bitboard::from_u64(1 << 18),
        Bitboard::from_u64(1 << 32),
    );
    assert_eq!(result, MoveResult::Valid(PlayerColor::White));
    // the jumped piece is gone from the board
    assert_eq!(board.men(PlayerColor::Black).to_u64(), 1 << 41);
    let follow_up = board.make_move(
        PlayerColor::White,
        Bitboard::from_u64(1 << 32),
        Bitboard::from_u64(1 << 50),
    );
    assert_eq!(follow_up, MoveResult::Valid(PlayerColor::Black));
    assert_eq!(board.men(PlayerColor::Black).to_u64(), 0);
}

#[test]
fn invalid_moves_leave_board_unchanged() {
    let mut board = Checkerboard::new();
    let before = board.raw_string();
    // not a single square
    assert_eq!(
        board.make_move(PlayerColor::White, Bitboard::new(), Bitboard::from_u64(1 << 25)),
        MoveResult::Invalid
    );
    assert_eq!(
        board.make_move(
            PlayerColor::White,
            Bitboard::from_u64(3),
            Bitboard::from_u64(1 << 25)
        ),
        MoveResult::Invalid
    );
    // empty source square
    assert_eq!(
        board.make_move(
            PlayerColor::White,
            Bitboard::from_u64(1 << 27),
            Bitboard::from_u64(1 << 34)
        ),
        MoveResult::Invalid
    );
    // the piece on the source square belongs to the opponent
    assert_eq!(
        board.make_move(
            PlayerColor::White,
            Bitboard::from_u64(1 << 41),
            Bitboard::from_u64(1 << 34)
        ),
        MoveResult::Invalid
    );
    // the destination is not reachable
    assert_eq!(
        board.make_move(
            PlayerColor::White,
            Bitboard::from_u64(1 << 16),
            Bitboard::from_u64(1 << 34)
        ),
        MoveResult::Invalid
    );
    // the destination is occupied
    assert_eq!(
        board.make_move(
            PlayerColor::White,
            Bitboard::from_u64(1 << 16),
            Bitboard::from_u64(1 << 9)
        ),
        MoveResult::Invalid
    );
    assert_eq!(board.raw_string(), before);
}

#[test]
fn from_masks_rejects_ill_formed_boards() {
    // overlapping sets
    assert!(Checkerboard::from_masks(1 << 18, 1 << 18, 0, 0).is_none());
    assert!(Checkerboard::from_masks(1 << 18, 0, 1 << 18, 0).is_none());
    // a piece on a non-playable square
    assert!(Checkerboard::from_masks(1 << 1, 0, 0, 0).is_none());
    // a well-formed board round-trips
    let board = Checkerboard::from_masks(1 << 18, 1 << 41, 1 << 2, 1 << 61).unwrap();
    assert_eq!(board.men(PlayerColor::White).to_u64(), 1 << 18);
    assert_eq!(board.men(PlayerColor::Black).to_u64(), 1 << 41);
    assert_eq!(board.kings(PlayerColor::White).to_u64(), 1 << 2);
    assert_eq!(board.kings(PlayerColor::Black).to_u64(), 1 << 61);
    assert_eq!(
        board.pieces(PlayerColor::White).to_u64(),
        (1 << 18) | (1 << 2)
    );
    assert_eq!(
        board.opponents(PlayerColor::White).to_u64(),
        (1 << 41) | (1 << 61)
    );
}

#[test]
fn index_orders_the_four_sets() {
    assert_eq!(Checkerboard::index(PlayerColor::White, false), 0);
    assert_eq!(Checkerboard::index(PlayerColor::Black, false), 1);
    assert_eq!(Checkerboard::index(PlayerColor::White, true), 2);
    assert_eq!(Checkerboard::index(PlayerColor::Black, true), 3);
}

#[test]
fn set_algebra() {
    let a = Bitboard::from_u64(0b1100);
    let b = Bitboard::from_u64(0b1010);
    assert_eq!(a.union(b).to_u64(), 0b1110);
    assert_eq!(a.intersect(b).to_u64(), 0b1000);
    assert_eq!(a.sym_diff(b).to_u64(), 0b0110);
    assert_eq!(a.complement().to_u64(), !0b1100u64);
    assert_eq!(a.without(b).to_u64(), 0b0100);
    assert_eq!(a.shl(2).to_u64(), 0b110000);
    assert_eq!(a.shr(2).to_u64(), 0b11);
    assert_eq!(a.shl_masked(0b100, 1).to_u64(), 0b10000);
    assert_eq!(a.shr_masked(0b100, 2).to_u64(), 0b10);
    assert!(Bitboard::new().is_empty());
    assert!(!Bitboard::new().is_not_empty());
    assert!(Bitboard::from_u64(1 << 63).is_single_square());
    assert!(!Bitboard::from_u64(0).is_single_square());
    assert!(!Bitboard::from_u64(5).is_single_square());
}

#[test]
fn raw_string_of_start_position() {
    let board = Checkerboard::new();
    let expected = "○ ○ ○ ○  ○ ○ ○ ○○ ○ ○ ○                  ● ● ● ●● ● ● ●  ● ● ● ●";
    assert_eq!(board.raw_string(), expected);
}

#[test]
fn full_board_is_a_draw() {
    // all 32 playable squares occupied, whatever the mix of pieces
    let lower = PLAYABLE_SQUARES & 0xFFFFFFFF;
    let upper = PLAYABLE_SQUARES & !0xFFFFFFFFu64;
    let game = CheckersGame {
        board: Checkerboard::from_masks(lower, upper, 0, 0).unwrap(),
        on_move: PlayerColor::White,
        result: None,
    };
    assert_eq!(game.game_over(), Some(GameResult::Draw));
}

#[test]
fn stuck_side_loses() {
    // white to move: its one man on 0 can neither step (9 is taken, and
    // jumping it is blocked by 18) nor capture anywhere
    let board = Checkerboard::from_masks(1 << 0, (1 << 9) | (1 << 18), 0, 0).unwrap();
    let game = CheckersGame {
        board,
        on_move: PlayerColor::White,
        result: None,
    };
    assert_eq!(
        game.game_over(),
        Some(GameResult::Victory(PlayerColor::Black))
    );
}

#[test]
fn open_game_has_no_result() {
    let game = CheckersGame::new();
    assert_eq!(game.on_move, PlayerColor::White);
    assert!(game.result.is_none());
    assert_eq!(game.game_over(), None);
    // black to move in the same position can also move
    let other_side = CheckersGame {
        board: Checkerboard::new(),
        on_move: PlayerColor::Black,
        result: None,
    };
    assert_eq!(other_side.game_over(), None);
}

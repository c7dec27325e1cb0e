//! Game-play tests: board rendering, move application, captures and
//! promotion, driven through the public engine API.

use checkers::bitboard::Bitboard;
use checkers::game::{Checkerboard, MoveResult, PlayerColor};
use checkers::moves::piece_moves;

/// The string with every whitespace character removed.
fn stripped(s: &str) -> String {
    let mut t = String::from(s);
    t.retain(|c| !c.is_whitespace());
    t
}

/// The board symbols replaced by the letter alphabet `O`/`o`/`K`/`k`.
fn to_letters(s: &str) -> String {
    s.chars()
        .map(|c| match c {
            '○' => 'O',
            '●' => 'o',
            '☆' => 'K',
            '★' => 'k',
            other => other,
        })
        .collect()
}

#[test]
fn lib_bitboard_display() {
    let bb = Bitboard::from_u64(0xAA55AA000055AA55);
    assert_eq!(
        bb.render(),
        "01010101\n10101010\n01010101\n00000000\n00000000\n10101010\n01010101\n10101010\n"
    );
}

#[test]
fn tests_bitboard_display() {
    let bb = Bitboard::from_u64(0xAA55AA000055AA55);
    assert_eq!(
        bb.render(),
        "01010101\n10101010\n01010101\n00000000\n00000000\n10101010\n01010101\n10101010\n"
    );
}

#[test]
fn pieces_move() {
    let board = Checkerboard::from_masks(1 << 18, 0, 0, 0).unwrap();
    let rmbb = Bitboard::from_u64((1 << 25) | (1 << 27));
    assert_eq!(
        rmbb,
        piece_moves(&board, PlayerColor::White, false, Bitboard::from_u64(1 << 18))
    );
    let bmbb = Bitboard::from_u64((1 << 9) | (1 << 11));
    assert_eq!(
        bmbb,
        piece_moves(&board, PlayerColor::Black, false, Bitboard::from_u64(1 << 18))
    );
    let kbb = Bitboard::from_u64((1 << 9) | (1 << 11) | (1 << 25) | (1 << 27));
    assert_eq!(
        kbb,
        piece_moves(&board, PlayerColor::White, true, Bitboard::from_u64(1 << 18))
    );
    assert_eq!(
        kbb,
        piece_moves(&board, PlayerColor::Black, true, Bitboard::from_u64(1 << 18))
    );
}

#[test]
fn start_board_display() {
    let start = Checkerboard::new();
    assert_eq!(
        stripped(&start.render()),
        stripped(
            "
       ● ● ● ●
      ● ● ● ●
       ● ● ● ●


      ○ ○ ○ ○
       ○ ○ ○ ○
      ○ ○ ○ ○
  "
        )
    );
}

#[test]
fn lib_start_board_display() {
    let start = Checkerboard::new();
    assert_eq!(
        stripped(&to_letters(&start.render())),
        stripped(
            "
         o o o o
        o o o o
         o o o o


        O O O O
         O O O O
        O O O O
    "
        )
    );
}

#[test]
fn make_move() {
    let mut start = Checkerboard::new();
    assert_eq!(
        start.make_move(
            PlayerColor::White,
            Bitboard::from_u64(1 << 16),
            Bitboard::from_u64(1 << 25)
        ),
        MoveResult::Valid(PlayerColor::Black)
    )
}

#[test]
fn make_some_moves() {
    let mut board = Checkerboard::new();
    board.make_move(
        PlayerColor::White,
        Bitboard::from_u64(1 << 20),
        Bitboard::from_u64(1 << 27),
    );
    board.make_move(
        PlayerColor::Black,
        Bitboard::from_u64(1 << 41),
        Bitboard::from_u64(1 << 34),
    );
    board.make_move(
        PlayerColor::White,
        Bitboard::from_u64(1 << 27),
        Bitboard::from_u64(1 << 41),
    );
    assert_eq!(
        stripped(&board.render()),
        stripped(
            "
       ● ● ● ●
      ● ● ● ●
       ○ ● ● ●


      ○ ○   ○
       ○ ○ ○ ○
      ○ ○ ○ ○
  "
        )
    );
}

#[test]
fn lib_make_some_moves() {
    let mut board = Checkerboard::new();
    board.make_move(
        PlayerColor::White,
        Bitboard::from_u64(1 << 20),
        Bitboard::from_u64(1 << 27),
    );
    board.make_move(
        PlayerColor::Black,
        Bitboard::from_u64(1 << 41),
        Bitboard::from_u64(1 << 34),
    );
    board.make_move(
        PlayerColor::White,
        Bitboard::from_u64(1 << 27),
        Bitboard::from_u64(1 << 41),
    );
    assert_eq!(
        stripped(&to_letters(&board.render())),
        stripped(
            "
         o o o o
        o o o o
         O o o o


        O O   O
         O O O O
        O O O O
    "
        )
    );
}

/// The move sequence shared by the two promotion tests.
fn play_promotion_game() -> Checkerboard {
    let moves = [
        (PlayerColor::White, 20, 27),
        (PlayerColor::Black, 41, 34),
        (PlayerColor::White, 27, 41),
        (PlayerColor::Black, 48, 34),
        (PlayerColor::White, 11, 20),
        (PlayerColor::Black, 34, 27),
        (PlayerColor::White, 20, 34),
        (PlayerColor::Black, 43, 25),
        (PlayerColor::White, 18, 32),
        (PlayerColor::Black, 52, 43),
        (PlayerColor::White, 22, 29),
        (PlayerColor::Black, 59, 52),
        (PlayerColor::White, 16, 25),
        (PlayerColor::Black, 57, 48),
        (PlayerColor::White, 15, 22),
        (PlayerColor::Black, 50, 41),
        (PlayerColor::White, 32, 50),
        (PlayerColor::Black, 48, 41),
        (PlayerColor::White, 50, 57),
    ];
    let mut board = Checkerboard::new();
    for (color, start, end) in moves {
        board.make_move(
            color,
            Bitboard::from_u64(1 << start),
            Bitboard::from_u64(1 << end),
        );
    }
    board
}

#[test]
fn promotion() {
    let board = play_promotion_game();
    assert_eq!(
        stripped(&board.render()),
        stripped(
            "
       ☆   ● ●
          ● ●
       ● ● ● ●

       ○   ○
            ○
       ○   ○
      ○ ○ ○ ○
  "
        )
    );
}

#[test]
fn lib_promotion() {
    let board = play_promotion_game();
    assert_eq!(
        stripped(&to_letters(&board.render())),
        stripped(
            "
         K   o o
            o o
         o o o o

         O   O
              O
         O   O
        O O O O
    "
        )
    );
}

#[test]
fn midsquare() {
    let start = Bitboard::from_u64(1 << 27);
    let end = Bitboard::from_u64(1 << 41);
    assert_eq!(Bitboard::midsquare(start, end), Bitboard::from_u64(1 << 34));
}

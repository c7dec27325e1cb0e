//! A thin game session around the rules engine: the board, the side to
//! move, and the terminal-state judgment a caller consults after each
//! successful move.

use vstd::prelude::*;

use crate::bitboard::{lemma_sq_ops, Bitboard, PLAYABLE_SQUARES};
use crate::game::{empty_of, other, start_position, BoardView, Checkerboard, PlayerColor};
use crate::moves::{color_captures, color_moves, has_capture, has_step};

verus! {

/// How a finished game ended: a victory for one color, or a draw.
#[derive(Debug, Copy, Clone, PartialEq, Eq, Structural)]
pub enum GameResult {
    Victory(PlayerColor),
    Draw,
}

/// The terminal-state judgment over a board and the side to move: a draw
/// once every playable square is occupied, whatever the mix of pieces;
/// otherwise a loss for a side to move with neither a step nor a capture
/// available; otherwise the game goes on.
pub open spec fn game_result(v: BoardView, on_move: PlayerColor) -> Option<GameResult> {
    if empty_of(v) & PLAYABLE_SQUARES == 0 {
        Some(GameResult::Draw)
    } else if !has_step(v, on_move) && !has_capture(v, on_move) {
        Some(GameResult::Victory(other(on_move)))
    } else {
        None
    }
}

/// A game session: the board, the side to move, and the result once the
/// game is over.
pub struct CheckersGame {
    pub board: Checkerboard,
    pub on_move: PlayerColor,
    pub result: Option<GameResult>,
}

impl CheckersGame {
    /// A fresh game: the starting position, white to move, no result yet.
    pub fn new() -> (g: CheckersGame)
        ensures
            g.board@ == start_position(),
            g.on_move == PlayerColor::White,
            g.result is None,
    {
        CheckersGame { board: Checkerboard::new(), on_move: PlayerColor::White, result: None }
    }

    /// Judge the current position for the side to move, as `game_result`
    /// describes it.
    pub fn game_over(&self) -> (r: Option<GameResult>)
        ensures
            r == game_result(self.board@, self.on_move),
    {
        let all_squares = Bitboard::from_u64(PLAYABLE_SQUARES);
        let white_steps = color_moves(&self.board, PlayerColor::White);
        let white_jumps = color_captures(&self.board, PlayerColor::White);
        let white_moves = white_steps.union(white_jumps);
        let black_steps = color_moves(&self.board, PlayerColor::Black);
        let black_jumps = color_captures(&self.board, PlayerColor::Black);
        let black_moves = black_steps.union(black_jumps);
        proof {
            lemma_sq_ops(white_steps@, white_jumps@, 0);
            lemma_sq_ops(black_steps@, black_jumps@, 0);
        }
        if self.board.empty().intersect(all_squares).is_empty() {
            Some(GameResult::Draw)
        } else if self.on_move == PlayerColor::White && white_moves.is_empty() {
            Some(GameResult::Victory(PlayerColor::Black))
        } else if self.on_move == PlayerColor::Black && black_moves.is_empty() {
            Some(GameResult::Victory(PlayerColor::White))
        } else {
            None
        }
    }
}

} // verus!

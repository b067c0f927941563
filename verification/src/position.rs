//! The interface to the board: an external collaborator that owns the game
//! state and the game's rules.
//!
//! The search core never inspects a position directly. It only generates
//! moves, applies and undoes them, and asks for the terminal result and the
//! side to move. A concrete engine (outside this crate) implements
//! [`GamePosition`] for its board type; nothing is assumed about the
//! implementation, so every contract proved in this crate holds for any
//! implementor.

use vstd::prelude::*;

verus! {

/// One of the two players.
#[derive(Clone, Copy, Debug, PartialEq, Eq, Structural)]
pub enum Player {
    White,
    Black,
}

/// The result of a finished game.
#[derive(Clone, Copy, Debug, PartialEq, Eq, Structural)]
pub enum GameOutcome {
    WhiteWin,
    BlackWin,
    Draw,
}

impl GameOutcome {
    /// Whether this outcome is a win for `player`.
    pub open spec fn spec_is_win_for(self, player: Player) -> bool {
        match (self, player) {
            (GameOutcome::WhiteWin, Player::White) => true,
            (GameOutcome::BlackWin, Player::Black) => true,
            _ => false,
        }
    }

    /// Whether this outcome is a win for `player`.
    pub fn is_win_for(self, player: Player) -> (r: bool)
        ensures
            r == self.spec_is_win_for(player),
    {
        match (self, player) {
            (GameOutcome::WhiteWin, Player::White) => true,
            (GameOutcome::BlackWin, Player::Black) => true,
            _ => false,
        }
    }
}

/// A board position, owned and mutated by an external engine.
///
/// Required operations, mirroring the collaborator's contract: legal move
/// generation (plain, and scored for best-first ordering), reversible move
/// application with an undo token, terminal-result detection, the side to
/// move, and the canonical text of a move in the context of this position.
///
/// The methods carry no `ensures`: the search proves nothing about the
/// board's behaviour, only about its own value propagation and the
/// structures it builds.
pub trait GamePosition: Sized {
    /// A legal move of the game.
    type Move;

    /// An opaque token sufficient to reverse exactly one move application.
    type Undo;

    /// The side to move in this position.
    fn side_to_move(&self) -> Player;

    /// `Some(outcome)` when the game is over, `None` otherwise.
    fn game_result(&self) -> Option<GameOutcome>;

    /// The legal moves of this position, in the generator's order.
    fn generate_moves(&self) -> Vec<Self::Move>;

    /// The legal moves of this position, each with a heuristic score
    /// (higher is better) used only for best-first move ordering.
    fn generate_scored_moves(&self) -> Vec<(Self::Move, u64)>;

    /// Applies a legal move of this position, returning the undo token.
    fn do_move(&mut self, mv: &Self::Move) -> Self::Undo;

    /// Reverses the one move application that produced `undo`.
    fn undo_move(&mut self, undo: Self::Undo);

    /// The canonical text of a legal move in the context of this position.
    fn move_text(&self, mv: &Self::Move) -> String;

    /// Whether this move is dominated near the search horizon — a
    /// defensive wall-type placement in the last plies that a non-wall
    /// alternative always at least matches — and may be skipped by the
    /// tree enumerator. An explicitly opted-in pruning heuristic, not a
    /// correctness requirement: it can miss rare board-fill wins, so by
    /// default nothing is dominated.
    fn move_is_dominated(&self, mv: &Self::Move, remaining_depth: u32) -> bool {
        let _ = mv;
        let _ = remaining_depth;
        false
    }
}

} // verus!

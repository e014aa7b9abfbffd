//! What the search asks of a game: its moves, its outcome, and its transitions.

use vstd::prelude::*;
use crate::alpha_zero::score::Score;

verus! {

/// What the search needs to know of a move.
pub trait MoveParameters {
    /// Whether the side to move changes with this move.
    spec fn switches_player(&self) -> bool;

    /// Whether the side to move changes with this move.
    fn is_player_switch(&self) -> (switch: bool)
        ensures
            switch == self.switches_player(),
    ;
}

/// Either the score of a finished game, seen by the side to move, or the moves open
/// to that side.
#[derive(Debug, Clone, PartialEq)]
pub enum TerminationState<Move> {
    Terminal(Score),
    Moves(Vec<Move>),
}

impl<Move> TerminationState<Move> {
    /// The score, where the game is over.
    pub fn get_terminal(&self) -> (score: Option<Score>)
        ensures
            score == match *self {
                TerminationState::Terminal(f) => Some(f),
                TerminationState::Moves(_) => None,
            },
    {
        match self {
            TerminationState::Terminal(f) => Some(*f),
            TerminationState::Moves(_) => None,
        }
    }

    /// The moves, where the game goes on.
    pub fn get_moves(self) -> (moves: Option<Vec<Move>>)
        ensures
            moves == match self {
                TerminationState::Terminal(_) => None,
                TerminationState::Moves(moves) => Some(moves),
            },
    {
        match self {
            TerminationState::Terminal(_) => None,
            TerminationState::Moves(moves) => Some(moves),
        }
    }
}

/// A two-player game as a pure transition system.
pub trait Game: Sized {
    type Move: MoveParameters;

    /// The score of the position for the side to move, where the game is over.
    spec fn outcome(&self) -> Option<Score>;

    /// The number of moves open to the side to move.
    spec fn move_count(&self) -> usize;

    /// Move number `index` of those open to the side to move.
    spec fn legal_move(&self, index: usize) -> Self::Move;

    /// The position that the move `m` leads to.
    spec fn after(&self, m: Self::Move) -> Self;

    /// A finished game reports its score, which lies between zero and one; any other
    /// position reports its moves, of which there is at least one.
    fn get_state(&self) -> (state: TerminationState<Self::Move>)
        ensures
            match state {
                TerminationState::Terminal(score) => self.outcome() == Some(score),
                TerminationState::Moves(moves) => {
                    &&& self.outcome().is_none()
                    &&& moves@.len() == self.move_count()
                    &&& forall|i: int|
                        0 <= i < moves@.len() ==> #[trigger] moves@[i] == self.legal_move(
                            i as usize,
                        )
                    &&& moves@.len() > 0
                },
            },
    ;

    /// Plays one of the moves that `get_state` reported and returns the new position.
    /// The position it is played from stays as it was.
    fn make_move(&self, m: &Self::Move) -> (next: Self)
        requires
            self.outcome().is_none(),
            exists|i: int| 0 <= i < self.move_count() && #[trigger] self.legal_move(i as usize) == *m,
        ensures
            next == self.after(*m),
    ;
}

/// The moves open to the side to move, in their order.
pub open spec fn legal_moves<G: Game>(state: G) -> Seq<G::Move> {
    Seq::new(state.move_count() as nat, |i: int| state.legal_move(i as usize))
}

/// What `get_state` reports of an unfinished position are its legal moves.
pub proof fn lemma_reported_moves<G: Game>(state: G, moves: Seq<G::Move>)
    requires
        moves.len() == state.move_count(),
        forall|i: int| 0 <= i < moves.len() ==> #[trigger] moves[i] == state.legal_move(i as usize),
    ensures
        moves == legal_moves(state),
{
    assert(moves =~= legal_moves(state));
}

} // verus!

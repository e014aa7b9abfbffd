//! What a finished game between two players teaches: the value of each of its
//! positions, seen by the player who was to move there.

use vstd::prelude::*;
use crate::alpha_zero::score::Score;
use crate::alpha_zero::score::SCORE_ONE;

verus! {

/// The value of a position for the player who was to move there, where `score` is
/// what the player to move at the end got.
pub open spec fn mover_value(first_moved: bool, first_at_end: bool, score: nat) -> nat {
    if first_moved == first_at_end {
        score
    } else {
        (SCORE_ONE - score) as nat
    }
}

/// Whether the first player is to move after a move, given whether that player was
/// to move before it and whether the move switches the player.
pub fn next_to_move(first: bool, player_switch: bool) -> (next: bool)
    ensures
        next == (first != player_switch),
{
    first ^ player_switch
}

/// Labels the positions of a finished game between two players. `first_moved[i]`
/// says whether the first player was to move in position `i`, `first_at_end`
/// whether that player is to move in the last position, and `score` is the score of
/// the last position for the player to move there. Entry `i` of the result is the
/// value of position `i` for the player who was to move there.
pub fn label_battle(first_moved: &Vec<bool>, first_at_end: bool, score: Score) -> (values: Vec<
    Score,
>)
    ensures
        values@.len() == first_moved@.len(),
        forall|i: int|
            0 <= i < values@.len() ==> (#[trigger] values@[i]).value() == mover_value(
                first_moved@[i],
                first_at_end,
                score.value(),
            ),
{
    let other = score.flip();
    let mut values: Vec<Score> = Vec::new();
    let mut i: usize = 0;
    while i < first_moved.len()
        invariant
            i <= first_moved.len(),
            values@.len() == i,
            other.value() == SCORE_ONE - score.value(),
            forall|j: int|
                0 <= j < i ==> (#[trigger] values@[j]).value() == mover_value(
                    first_moved@[j],
                    first_at_end,
                    score.value(),
                ),
        decreases first_moved.len() - i,
    {
        if first_moved[i] == first_at_end {
            values.push(score);
        } else {
            values.push(other);
        }
        i = i + 1;
    }
    values
}

} // verus!

//! What a finished self-play game teaches: the value of each of its positions, seen
//! by the side that was to move there.

use vstd::prelude::*;
use crate::alpha_zero::score::Score;
use crate::alpha_zero::score::SCORE_ONE;

verus! {

/// The value of position `index` of a game whose last position has the value
/// `outcome` for the side to move there: the outcome, flipped once for every move
/// from position `index` on that switched the player.
pub open spec fn position_value(switches: Seq<bool>, outcome: nat, index: int) -> nat
    decreases switches.len() - index,
{
    if index < 0 || index >= switches.len() {
        outcome
    } else {
        let later = position_value(switches, outcome, index + 1);
        if switches[index] {
            (SCORE_ONE - later) as nat
        } else {
            later
        }
    }
}

/// The value of a position stays between zero and one.
pub proof fn lemma_position_value_in_range(switches: Seq<bool>, outcome: nat, index: int)
    requires
        outcome <= SCORE_ONE,
    ensures
        position_value(switches, outcome, index) <= SCORE_ONE,
    decreases switches.len() - index,
{
    if 0 <= index < switches.len() {
        lemma_position_value_in_range(switches, outcome, index + 1);
    }
}

/// Where every move switches the player, the side that was to move an even number
/// of moves before the end sees the outcome as it is, and the other side sees it
/// flipped.
pub proof fn lemma_alternating_values(switches: Seq<bool>, outcome: nat, index: int)
    requires
        outcome <= SCORE_ONE,
        0 <= index <= switches.len(),
        forall|i: int| 0 <= i < switches.len() ==> switches[i],
    ensures
        position_value(switches, outcome, index) == if (switches.len() - index) % 2 == 0 {
            outcome
        } else {
            (SCORE_ONE - outcome) as nat
        },
    decreases switches.len() - index,
{
    if index < switches.len() {
        lemma_alternating_values(switches, outcome, index + 1);
    }
}

/// Labels the positions of a finished game. `switches[i]` says whether the move
/// played in position `i` switched the player, and `outcome` is the score of the
/// last position, which no move was played in. Entry `i` of the result is the value
/// of position `i` for the side that was to move there.
pub fn label_history(switches: &Vec<bool>, outcome: Score) -> (values: Vec<Score>)
    ensures
        values@.len() == switches@.len(),
        forall|i: int|
            0 <= i < values@.len() ==> (#[trigger] values@[i]).value() == position_value(
                switches@,
                outcome.value(),
                i,
            ),
{
    let n = switches.len();
    let mut reversed: Vec<Score> = Vec::new();
    let mut value = outcome;
    let mut left = n;
    while left > 0
        invariant
            left <= n,
            n == switches@.len(),
            reversed@.len() == n - left,
            value.value() == position_value(switches@, outcome.value(), left as int),
            forall|i: int|
                0 <= i < reversed@.len() ==> (#[trigger] reversed@[i]).value() == position_value(
                    switches@,
                    outcome.value(),
                    n - 1 - i,
                ),
        decreases left,
    {
        left = left - 1;
        if switches[left] {
            value = value.flip();
        }
        reversed.push(value);
    }
    let mut values: Vec<Score> = Vec::new();
    while reversed.len() > 0
        invariant
            n == switches@.len(),
            reversed@.len() + values@.len() == n,
            forall|i: int|
                0 <= i < reversed@.len() ==> (#[trigger] reversed@[i]).value() == position_value(
                    switches@,
                    outcome.value(),
                    n - 1 - i,
                ),
            forall|i: int|
                0 <= i < values@.len() ==> (#[trigger] values@[i]).value() == position_value(
                    switches@,
                    outcome.value(),
                    i,
                ),
        decreases reversed.len(),
    {
        match reversed.pop() {
            Some(value) => {
                values.push(value);
            },
            None => {},
        }
    }
    values
}

} // verus!

//! Scores and priors as fixed-point fractions of one.

use vstd::prelude::*;

verus! {

/// Number of parts that make up the score one.
pub const SCORE_ONE: u32 = 65536;

/// A value between zero and one, held as a count of 65536ths.
#[derive(Clone, Copy, Debug, PartialEq, Eq, Structural)]
pub struct Score {
    parts: u32,
}

impl Score {
    /// The score as a count of 65536ths.
    pub closed spec fn value(self) -> nat {
        self.parts as nat
    }

    /// Whether the score lies between zero and one. Every score that executable code
    /// holds does; a score that only a specification speaks of need not.
    #[verifier::type_invariant]
    pub open spec fn in_range(self) -> bool {
        self.value() <= SCORE_ONE
    }

    /// The score whose count of parts is `parts`, reduced into range.
    pub closed spec fn from_value(parts: nat) -> Score {
        Score { parts: if parts <= SCORE_ONE { parts as u32 } else { SCORE_ONE } }
    }

    /// The score seen from the other side: one minus the score.
    pub open spec fn flipped(self) -> Score {
        Score::from_value((SCORE_ONE - self.value()) as nat)
    }

    /// The score of `parts` 65536ths, where that is at most one.
    pub fn new(parts: u32) -> (score: Option<Self>)
        ensures
            parts <= SCORE_ONE ==> score == Some(Score::from_value(parts as nat)) && score->0.value()
                == parts,
            parts > SCORE_ONE ==> score.is_none(),
    {
        if parts <= SCORE_ONE {
            Some(Score { parts })
        } else {
            None
        }
    }

    /// The score zero: a loss for the side to move.
    pub fn zero() -> (score: Self)
        ensures
            score == Score::from_value(0),
            score.value() == 0,
    {
        Score { parts: 0 }
    }

    /// The score one half: a draw.
    pub fn half() -> (score: Self)
        ensures
            score == Score::from_value(32768),
            score.value() == 32768,
    {
        Score { parts: 32768 }
    }

    /// The score one: a win for the side to move.
    pub fn one() -> (score: Self)
        ensures
            score == Score::from_value(65536),
            score.value() == 65536,
    {
        Score { parts: 65536 }
    }

    /// The count of 65536ths.
    pub fn parts(&self) -> (parts: u32)
        ensures
            parts == self.value(),
            parts <= SCORE_ONE,
        no_unwind
    {
        proof {
            use_type_invariant(self);
        }
        self.parts
    }

    /// One minus the score.
    pub fn flip(&self) -> (score: Self)
        ensures
            score == self.flipped(),
            score.value() == SCORE_ONE - self.value(),
        no_unwind
    {
        proof {
            use_type_invariant(self);
        }
        Score { parts: SCORE_ONE - self.parts }
    }

    /// The score of a count of parts that is at most one has that count of parts.
    pub proof fn lemma_value_of_from_value(parts: nat)
        requires
            parts <= SCORE_ONE,
        ensures
            Score::from_value(parts).value() == parts,
            Score::from_value(parts).in_range(),
    {
    }

    /// A score in range is the score of its own count of parts.
    pub proof fn lemma_from_value_of_value(a: Score)
        requires
            a.in_range(),
        ensures
            Score::from_value(a.value()) == a,
    {
    }

    /// Flipping twice gives the score back.
    pub proof fn lemma_flip_involution(a: Score)
        requires
            a.in_range(),
        ensures
            a.flipped().flipped() == a,
    {
    }
}

/// The counts of parts of a sequence of scores.
pub open spec fn score_values(scores: Seq<Score>) -> Seq<nat> {
    Seq::new(scores.len(), |i: int| scores[i].value())
}

} // verus!

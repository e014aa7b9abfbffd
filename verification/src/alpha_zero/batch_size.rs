//! Hysteresis rule that maps the number of running searches to a batch ceiling.

use vstd::prelude::*;

verus! {

/// Smallest integer that is at least `a / b`.
pub open spec fn ceil_div(a: int, b: int) -> int
    recommends
        a >= 0,
        b > 0,
{
    (a + b - 1) / b
}

/// The ceiling the hysteresis rule leaves untouched from below: reaching it makes the
/// batch grow.
pub open spec fn upper_bound(current: int, max: int, num: int, denom: int) -> int {
    let scaled = ceil_div(current * denom, num);
    if scaled < max {
        scaled
    } else {
        max
    }
}

/// The batch ceiling after `tasks` running searches were observed.
pub open spec fn next_batch_size(current: int, max: int, num: int, denom: int, tasks: int) -> int {
    if tasks >= upper_bound(current, max, num, denom) {
        if tasks < max {
            tasks
        } else {
            max
        }
    } else if tasks < current {
        let shrunk = (current * num) / denom;
        if shrunk < 1 {
            1
        } else {
            shrunk
        }
    } else {
        current
    }
}

/// Scaling the ceiling up by the ratio never lowers it.
pub proof fn lemma_scaled_up(current: int, num: int, denom: int)
    requires
        0 <= current,
        1 <= num <= denom,
    ensures
        ceil_div(current * denom, num) >= current,
{
    assert(current * denom >= current * num) by (nonlinear_arith)
        requires
            0 <= current,
            num <= denom,
    ;
    assert((current * num + num - 1) / num >= current) by (nonlinear_arith)
        requires
            num >= 1,
            current >= 0,
    ;
    assert((current * denom + num - 1) / num >= (current * num + num - 1) / num) by (nonlinear_arith)
        requires
            current * denom >= current * num,
            num >= 1,
    ;
}

/// The new ceiling lies between one and the maximum, like the old one.
pub proof fn lemma_next_in_bounds(current: int, max: int, num: int, denom: int, tasks: int)
    requires
        1 <= current <= max,
        1 <= num <= denom,
        0 <= tasks,
    ensures
        1 <= next_batch_size(current, max, num, denom, tasks) <= max,
{
    lemma_scaled_up(current, num, denom);
    if tasks < upper_bound(current, max, num, denom) && tasks < current {
        assert((current * num) / denom <= current) by (nonlinear_arith)
            requires
                1 <= num <= denom,
                0 <= current,
        ;
    }
}

/// Hysteresis: as many tasks as the ceiling leave the ceiling as it is, and so do
/// more tasks, as long as they stay under the upper bound.
pub proof fn lemma_stable_band(current: int, max: int, num: int, denom: int, tasks: int)
    requires
        1 <= current <= max,
        1 <= num <= denom,
        current <= tasks,
        tasks < upper_bound(current, max, num, denom) || tasks == current,
    ensures
        next_batch_size(current, max, num, denom, tasks) == current,
{
    lemma_scaled_up(current, num, denom);
}

/// The ceiling moves towards the tasks: it does not fall while at least as many
/// tasks run as it allows, and it does not rise while fewer do.
pub proof fn lemma_moves_towards_tasks(current: int, max: int, num: int, denom: int, tasks: int)
    requires
        1 <= current <= max,
        1 <= num <= denom,
        0 <= tasks,
    ensures
        tasks >= current ==> next_batch_size(current, max, num, denom, tasks) >= current,
        tasks < current ==> next_batch_size(current, max, num, denom, tasks) <= current,
{
    lemma_scaled_up(current, num, denom);
    assert((current * num) / denom <= current) by (nonlinear_arith)
        requires
            1 <= num <= denom,
            0 <= current,
    ;
}

/// Keeps the batch ceiling proportional to the observed number of running searches.
pub struct BatchSizeManager {
    current_batch_size: usize,
    max_batch_size: usize,
    change_ratio: (usize, usize),
}

impl BatchSizeManager {
    /// The ratio is at most one, and the ceiling lies between one and the maximum.
    #[verifier::type_invariant]
    pub open spec fn inv(self) -> bool {
        &&& 1 <= self.num() <= self.denom()
        &&& 1 <= self.current() <= self.max()
    }

    /// The ceiling currently in force.
    pub closed spec fn current(self) -> usize {
        self.current_batch_size
    }

    /// The largest ceiling the controller may choose.
    pub closed spec fn max(self) -> usize {
        self.max_batch_size
    }

    /// Numerator of the hysteresis ratio.
    pub closed spec fn num(self) -> usize {
        self.change_ratio.0
    }

    /// Denominator of the hysteresis ratio.
    pub closed spec fn denom(self) -> usize {
        self.change_ratio.1
    }

    /// A controller that starts at its maximum.
    pub fn new(max_batch_size: usize, change_ratio: (usize, usize)) -> (manager: Self)
        requires
            max_batch_size >= 1,
            1 <= change_ratio.0 <= change_ratio.1,
        ensures
            manager.current() == max_batch_size,
            manager.max() == max_batch_size,
            manager.num() == change_ratio.0,
            manager.denom() == change_ratio.1,
    {
        Self { current_batch_size: max_batch_size, max_batch_size, change_ratio }
    }

    /// Adapts the ceiling to `tasks` running searches. At or above the upper bound the
    /// ceiling grows to `tasks`, capped by the maximum; below the current ceiling it
    /// shrinks by the hysteresis ratio, never under one. The new ceiling is returned
    /// only where it differs from the old one.
    pub fn on_task_count_change(&mut self, tasks: usize) -> (changed: Option<usize>)
        ensures
            final(self).current() == next_batch_size(
                old(self).current() as int,
                old(self).max() as int,
                old(self).num() as int,
                old(self).denom() as int,
                tasks as int,
            ),
            final(self).max() == old(self).max(),
            final(self).num() == old(self).num(),
            final(self).denom() == old(self).denom(),
            changed == if final(self).current() == old(self).current() {
                None
            } else {
                Some(final(self).current())
            },
            final(self).inv(),
        no_unwind
    {
        proof {
            use_type_invariant(&*self);
        }
        let (num, denom) = self.change_ratio;
        let current = self.current_batch_size;
        let max = self.max_batch_size;
        assert(current * denom <= usize::MAX * usize::MAX) by (nonlinear_arith)
            requires
                current <= usize::MAX,
                denom <= usize::MAX,
        ;
        assert(current * num <= current * denom) by (nonlinear_arith)
            requires
                num <= denom,
        ;
        let scaled: u128 = (current as u128 * denom as u128 + (num as u128 - 1)) / num as u128;
        assert(scaled >= 1) by (nonlinear_arith)
            requires
                scaled == (current * denom + (num - 1)) / (num as int),
                current >= 1,
                1 <= num <= denom,
        ;
        let at_upper = if scaled < max as u128 {
            tasks as u128 >= scaled
        } else {
            tasks >= max
        };
        let next: usize = if at_upper {
            if tasks < max {
                tasks
            } else {
                max
            }
        } else if tasks < current {
            let shrunk: u128 = (current as u128 * num as u128) / denom as u128;
            assert(shrunk <= current) by (nonlinear_arith)
                requires
                    shrunk == (current * num) / (denom as int),
                    1 <= num <= denom,
            ;
            if shrunk < 1 {
                1
            } else {
                shrunk as usize
            }
        } else {
            current
        };
        self.current_batch_size = next;
        if next != current {
            Some(next)
        } else {
            None
        }
    }

    /// Replaces the maximum. A ceiling above the new maximum is lowered to it, and
    /// returned; otherwise nothing else changes.
    pub fn change_max_batch_size(&mut self, max_batch_size: usize) -> (changed: Option<usize>)
        requires
            max_batch_size >= 1,
        ensures
            final(self).max() == max_batch_size,
            final(self).current() == if old(self).current() > max_batch_size {
                max_batch_size
            } else {
                old(self).current()
            },
            final(self).num() == old(self).num(),
            final(self).denom() == old(self).denom(),
            changed == if old(self).current() > max_batch_size {
                Some(max_batch_size)
            } else {
                None
            },
            final(self).inv(),
        no_unwind
    {
        proof {
            use_type_invariant(&*self);
        }
        if self.current_batch_size > max_batch_size {
            self.current_batch_size = max_batch_size;
            self.max_batch_size = max_batch_size;
            Some(max_batch_size)
        } else {
            self.max_batch_size = max_batch_size;
            None
        }
    }

    /// The ceiling currently in force.
    pub fn current_batch_size(&self) -> (current: usize)
        ensures
            current == self.current(),
    {
        self.current_batch_size
    }

    /// The largest ceiling the controller may choose.
    pub fn max_batch_size(&self) -> (max: usize)
        ensures
            max == self.max(),
    {
        self.max_batch_size
    }
}

} // verus!

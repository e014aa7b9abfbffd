//! The decisions of the concurrency scope: how many self-play tasks are out, how many
//! of them may run at once, and which batch ceiling the scheduler is told.
//!
//! The scope itself spawns the tasks, holds the permit pool and sends the commands.
//! It keeps an `ExecutorScope` beside them and reports to it what happens.

use vstd::prelude::*;
use crate::alpha_zero::batch_size::BatchSizeManager;
use crate::alpha_zero::batch_size::next_batch_size;
use crate::alpha_zero::network_batched_executor::BatcherCommand;
use crate::alpha_zero::network_batched_executor::ConfigurationError;

verus! {

/// The numerator of the hysteresis ratio of a scope.
pub const RATIO_NUM: usize = 5;

/// The denominator of the hysteresis ratio of a scope.
pub const RATIO_DENOM: usize = 6;

/// What a scope keeps count of.
pub struct ScopeView {
    /// The tasks that were spawned and whose result was not taken yet.
    pub tasks: nat,
    /// The size of the permit pool: how many tasks may run at once.
    pub permits: nat,
    /// The batch ceiling that the scheduler was told last.
    pub batch_size: nat,
    /// The largest batch ceiling the scope may choose.
    pub max_batch_size: nat,
}

/// The number of tasks that can be running: those that are out, as far as there are
/// permits for them.
pub open spec fn running_tasks(scope: ScopeView) -> nat {
    if scope.tasks < scope.permits {
        scope.tasks
    } else {
        scope.permits
    }
}

/// The batch ceiling that fits the running tasks.
pub open spec fn fitting_batch_size(scope: ScopeView) -> nat {
    next_batch_size(
        scope.batch_size as int,
        scope.max_batch_size as int,
        RATIO_NUM as int,
        RATIO_DENOM as int,
        running_tasks(scope) as int,
    ) as nat
}

/// The scope after the batch ceiling was fitted to the running tasks.
pub open spec fn rebalanced(scope: ScopeView) -> ScopeView {
    ScopeView {
        tasks: scope.tasks,
        permits: scope.permits,
        batch_size: fitting_batch_size(scope),
        max_batch_size: scope.max_batch_size,
    }
}

/// The command that tells the scheduler of a changed ceiling; none where the ceiling
/// stays.
pub open spec fn change_command(before: nat, after: nat) -> Option<BatcherCommand> {
    if before == after {
        None
    } else {
        Some(BatcherCommand::SetBatchSize(after as usize))
    }
}

/// The bookkeeping of a concurrency scope.
pub struct ExecutorScope {
    outstanding: usize,
    parallelism_tokens: usize,
    batch_size_manager: BatchSizeManager,
}

impl View for ExecutorScope {
    type V = ScopeView;

    closed spec fn view(&self) -> ScopeView {
        ScopeView {
            tasks: self.outstanding as nat,
            permits: self.parallelism_tokens as nat,
            batch_size: self.batch_size_manager.current() as nat,
            max_batch_size: self.batch_size_manager.max() as nat,
        }
    }
}

impl ExecutorScope {
    /// The ceiling lies between one and the maximum, and the ratio is five sixths.
    #[verifier::type_invariant]
    pub closed spec fn inv(self) -> bool {
        &&& self.batch_size_manager.inv()
        &&& self.batch_size_manager.num() == RATIO_NUM
        &&& self.batch_size_manager.denom() == RATIO_DENOM
    }

    /// A scope with `parallelism` permits and no tasks, whose scheduler starts with
    /// the ceiling `batch_size`. A ceiling of zero is refused.
    pub fn new(parallelism: usize, batch_size: usize) -> (scope: Result<Self, ConfigurationError>)
        ensures
            batch_size == 0 ==> scope == Err::<Self, ConfigurationError>(
                ConfigurationError::ZeroBatchSize,
            ),
            batch_size > 0 ==> scope.is_ok() && scope->Ok_0@ == (ScopeView {
                tasks: 0,
                permits: parallelism as nat,
                batch_size: batch_size as nat,
                max_batch_size: batch_size as nat,
            }),
    {
        if batch_size == 0 {
            Err(ConfigurationError::ZeroBatchSize)
        } else {
            let batch_size_manager = BatchSizeManager::new(batch_size, (RATIO_NUM, RATIO_DENOM));
            proof {
                use_type_invariant(&batch_size_manager);
            }
            Ok(Self { outstanding: 0, parallelism_tokens: parallelism, batch_size_manager })
        }
    }

    /// The number of tasks whose result was not taken yet.
    pub fn len(&self) -> (tasks: usize)
        ensures
            tasks == self@.tasks,
    {
        self.outstanding
    }

    /// The size of the permit pool.
    pub fn parallelism(&self) -> (permits: usize)
        ensures
            permits == self@.permits,
    {
        self.parallelism_tokens
    }

    /// The batch ceiling that the scheduler was told last.
    pub fn batch_size(&self) -> (ceiling: usize)
        ensures
            ceiling == self@.batch_size,
            ceiling >= 1,
    {
        proof {
            use_type_invariant(self);
        }
        self.batch_size_manager.current_batch_size()
    }

    /// A task was spawned. The batch ceiling stays: it is fitted when a task ends.
    pub fn spawn(&mut self)
        requires
            old(self)@.tasks < usize::MAX,
        ensures
            final(self)@ == (ScopeView { tasks: old(self)@.tasks + 1nat, ..old(self)@ }),
    {
        proof {
            use_type_invariant(&*self);
        }
        self.outstanding = self.outstanding + 1;
    }

    /// Fits the batch ceiling to the running tasks, and returns the command for the
    /// scheduler where the ceiling changed.
    pub fn on_tasks_count_change(&mut self) -> (command: Option<BatcherCommand>)
        ensures
            final(self)@ == rebalanced(old(self)@),
            command == change_command(old(self)@.batch_size, final(self)@.batch_size),
            command matches Some(BatcherCommand::SetBatchSize(size)) ==> size >= 1,
    {
        proof {
            use_type_invariant(&*self);
        }
        let tasks = if self.outstanding < self.parallelism_tokens {
            self.outstanding
        } else {
            self.parallelism_tokens
        };
        let changed = self.batch_size_manager.on_task_count_change(tasks);
        match changed {
            Some(batch) => Some(BatcherCommand::SetBatchSize(batch)),
            None => None,
        }
    }

    /// The permit pool grew by `delta`. The batch ceiling is fitted anew.
    pub fn increase_parallelism(&mut self, delta: usize) -> (command: Option<BatcherCommand>)
        requires
            old(self)@.permits + delta <= usize::MAX,
        ensures
            final(self)@ == rebalanced(
                ScopeView { permits: old(self)@.permits + delta as nat, ..old(self)@ },
            ),
            command == change_command(old(self)@.batch_size, final(self)@.batch_size),
            command matches Some(BatcherCommand::SetBatchSize(size)) ==> size >= 1,
    {
        proof {
            use_type_invariant(&*self);
        }
        self.parallelism_tokens = self.parallelism_tokens + delta;
        self.on_tasks_count_change()
    }

    /// The largest batch ceiling becomes `batch_size`. A ceiling above it is lowered
    /// to it, which the first command tells; then the ceiling is fitted to the
    /// running tasks, which the second command tells where that changed it again.
    pub fn set_batch_size(&mut self, batch_size: usize) -> (commands: (
        Option<BatcherCommand>,
        Option<BatcherCommand>,
    ))
        requires
            batch_size >= 1,
        ensures
            ({
                let lowered = ScopeView {
                    batch_size: if old(self)@.batch_size > batch_size {
                        batch_size as nat
                    } else {
                        old(self)@.batch_size
                    },
                    max_batch_size: batch_size as nat,
                    ..old(self)@
                };
                &&& final(self)@ == rebalanced(lowered)
                &&& commands.0 == change_command(old(self)@.batch_size, lowered.batch_size)
                &&& commands.1 == change_command(lowered.batch_size, final(self)@.batch_size)
            }),
            commands.0 matches Some(BatcherCommand::SetBatchSize(size)) ==> size >= 1,
            commands.1 matches Some(BatcherCommand::SetBatchSize(size)) ==> size >= 1,
    {
        proof {
            use_type_invariant(&*self);
        }
        let lowered = self.batch_size_manager.change_max_batch_size(batch_size);
        let first = match lowered {
            Some(batch) => Some(BatcherCommand::SetBatchSize(batch)),
            None => None,
        };
        let second = self.on_tasks_count_change();
        (first, second)
    }

    /// The scope waited for the next result. Where a task `completed`, one task
    /// fewer is out; where none was left to wait for, the count stays. Either way the
    /// batch ceiling is fitted anew.
    pub fn next(&mut self, completed: bool) -> (command: Option<BatcherCommand>)
        ensures
            final(self)@ == rebalanced(
                ScopeView {
                    tasks: if completed && old(self)@.tasks > 0 {
                        (old(self)@.tasks - 1) as nat
                    } else {
                        old(self)@.tasks
                    },
                    ..old(self)@
                },
            ),
            command == change_command(old(self)@.batch_size, final(self)@.batch_size),
            command matches Some(BatcherCommand::SetBatchSize(size)) ==> size >= 1,
    {
        proof {
            use_type_invariant(&*self);
        }
        if completed && self.outstanding > 0 {
            self.outstanding = self.outstanding - 1;
        }
        self.on_tasks_count_change()
    }
}

} // verus!

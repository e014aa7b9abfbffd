//! The game-independent core: search tree, scheduler decisions, batch sizing.

pub mod batch_size;
pub mod battle;
pub mod executor_scope;
pub mod game;
pub mod generate_game;
pub mod mcts;
pub mod network_batched_executor;
pub mod priors;
pub mod puct;
pub mod score;
pub mod tree_model;

pub use batch_size::BatchSizeManager;
pub use score::Score;
pub use score::SCORE_ONE;
pub use game::Game;
pub use mcts::EvaluationError;
pub use mcts::MonteCarloTree;
pub use mcts::MoveDynamicInfo;
pub use mcts::MoveStaticInfo;
pub use mcts::Policy;
pub use game::MoveParameters;
pub use game::TerminationState;
pub use network_batched_executor::BatcherCommand;
pub use executor_scope::ExecutorScope;
pub use network_batched_executor::Batch;
pub use network_batched_executor::BatcherStep;
pub use network_batched_executor::ConfigurationError;
pub use network_batched_executor::NetworkBatchedExecutor;

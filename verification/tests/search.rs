use selfplay::alpha_zero::puct::{edge_score, integer_sqrt, scaled_sqrt};
use selfplay::alpha_zero::EvaluationError;
use selfplay::alpha_zero::Game;
use selfplay::alpha_zero::MonteCarloTree;
use selfplay::alpha_zero::MoveParameters;
use selfplay::alpha_zero::Score;
use selfplay::alpha_zero::TerminationState;

const ONE: u32 = 65536;

/// A move of the toy games below: where it leads, and whether the player switches.
#[derive(Clone, Debug, PartialEq)]
struct Step {
    target: usize,
    switch: bool,
}

impl MoveParameters for Step {
    fn switches_player(&self) -> bool {
        self.switch
    }

    fn is_player_switch(&self) -> bool {
        self.switch
    }
}

/// A game given as a table: each position is either finished with a score in
/// 65536ths, or lists its moves.
#[derive(Clone, Debug)]
struct TableGame {
    position: usize,
    table: Vec<Result<u32, Vec<Step>>>,
}

impl Game for TableGame {
    type Move = Step;

    fn outcome(&self) -> Option<Score> {
        match &self.table[self.position] {
            Ok(score) => Score::new(*score),
            Err(_) => None,
        }
    }

    fn move_count(&self) -> usize {
        match &self.table[self.position] {
            Ok(_) => 0,
            Err(moves) => moves.len(),
        }
    }

    fn legal_move(&self, index: usize) -> Step {
        match &self.table[self.position] {
            Ok(_) => unreachable!(),
            Err(moves) => moves[index].clone(),
        }
    }

    fn after(&self, m: Step) -> Self {
        self.make_move(&m)
    }

    fn get_state(&self) -> TerminationState<Step> {
        match &self.table[self.position] {
            Ok(score) => TerminationState::Terminal(Score::new(*score).unwrap()),
            Err(moves) => TerminationState::Moves(moves.clone()),
        }
    }

    fn make_move(&self, m: &Step) -> Self {
        TableGame { position: m.target, table: self.table.clone() }
    }
}

fn step(target: usize, switch: bool) -> Step {
    Step { target, switch }
}

fn score(parts: u32) -> Score {
    Score::new(parts).unwrap()
}

/// Runs `samples` simulations to the end, answering every evaluation with the given
/// value and with equal priors. Returns the number of evaluations asked for.
fn run(tree: &mut MonteCarloTree<TableGame>, samples: usize, c_puct: u32, value: u32) -> usize {
    let mut evaluations = 0;
    let mut left = samples;
    loop {
        left = tree.do_simulations(left, c_puct);
        if left == 0 {
            return evaluations;
        }
        let moves = tree.pending_moves().unwrap().len();
        let priors = vec![score(ONE / moves as u32); moves];
        tree.provide_evaluation(score(value), &priors).unwrap();
        evaluations += 1;
        left -= 1;
    }
}

/// Root with three moves; the first leads to a position with two moves, all other
/// positions are finished.
fn small_game() -> TableGame {
    TableGame {
        position: 0,
        table: vec![
            Err(vec![step(1, true), step(2, true), step(3, false)]),
            Err(vec![step(4, true), step(5, true)]),
            Ok(ONE / 4),
            Ok(ONE / 2),
            Ok(ONE),
            Ok(0),
        ],
    }
}

#[test]
fn single_move_to_win_gives_whole_policy() {
    let game = TableGame { position: 0, table: vec![Err(vec![step(1, false)]), Ok(ONE)] };
    let mut tree = MonteCarloTree::new(game);
    // The first simulation expands the root; it passes no edge.
    assert_eq!(tree.do_simulations(1, ONE), 1);
    assert_eq!(tree.pending_moves().unwrap().len(), 1);
    assert_eq!(tree.pending_state().unwrap().position, 0);
    tree.provide_evaluation(Score::half(), &vec![Score::one()]).unwrap();
    assert_eq!(tree.get_policy().total, 0);
    // One simulation through the only move, which wins.
    assert_eq!(tree.do_simulations(1, ONE), 0);
    let policy = tree.get_policy();
    assert_eq!(policy.visits, vec![1]);
    assert_eq!(policy.total, 1);
    let shares: Vec<f32> = policy.visits.iter().map(|v| *v as f32 / policy.total as f32).collect();
    assert_eq!(shares, vec![1.0]);
    let (_, stats) = tree.edge_at(&vec![], 0).unwrap();
    assert_eq!(stats.total_score, ONE as u128);
}

#[test]
fn switching_move_backs_up_flipped_value() {
    for v in [0, 1, 1000, ONE / 2, ONE - 1, ONE] {
        let game = TableGame { position: 0, table: vec![Err(vec![step(1, true)]), Ok(v)] };
        let mut tree = MonteCarloTree::new(game);
        assert_eq!(run(&mut tree, 2, ONE, ONE / 2), 1);
        let (fixed, stats) = tree.edge_at(&vec![], 0).unwrap();
        assert!(fixed.player_switch);
        assert_eq!(stats.descends, 1);
        assert_eq!(stats.total_score, (ONE - v) as u128);
        assert_eq!(tree.value_at(&vec![0]).unwrap().parts(), v);
    }
}

#[test]
fn staying_move_backs_up_value_as_it_is() {
    let game = TableGame { position: 0, table: vec![Err(vec![step(1, false)]), Ok(12345)] };
    let mut tree = MonteCarloTree::new(game);
    run(&mut tree, 2, ONE, ONE / 2);
    let (fixed, stats) = tree.edge_at(&vec![], 0).unwrap();
    assert!(!fixed.player_switch);
    assert_eq!(stats.total_score, 12345);
}

#[test]
fn value_flips_at_every_switch_on_the_way_up() {
    // 0 -(switch)-> 1 -(switch)-> 2 -(stay)-> 3, finished with 1/4.
    let game = TableGame {
        position: 0,
        table: vec![
            Err(vec![step(1, true)]),
            Err(vec![step(2, true)]),
            Err(vec![step(3, false)]),
            Ok(ONE / 4),
        ],
    };
    let mut tree = MonteCarloTree::new(game);
    // Three simulations expand the three unfinished positions with the value one.
    assert_eq!(run(&mut tree, 3, ONE, ONE), 3);
    assert_eq!(tree.edge_at(&vec![], 0).unwrap().1.total_score, (ONE + 0) as u128);
    // The fourth reaches the finished position.
    assert_eq!(run(&mut tree, 1, ONE, ONE), 0);
    let lowest = tree.edge_at(&vec![0, 0], 0).unwrap().1;
    let middle = tree.edge_at(&vec![0], 0).unwrap().1;
    let top = tree.edge_at(&vec![], 0).unwrap().1;
    assert_eq!((lowest.descends, lowest.total_score), (1, (ONE / 4) as u128));
    // Second simulation: value one of position 2, flipped once. Fourth: 1/4 flipped.
    assert_eq!((middle.descends, middle.total_score), (2, (0 + 3 * ONE / 4) as u128));
    // First edge: 1 flipped, 1 flipped twice, 1/4 flipped twice.
    assert_eq!((top.descends, top.total_score), (3, (0 + ONE + ONE / 4) as u128));
}

#[test]
fn policy_has_one_entry_for_each_move_and_adds_up() {
    let mut tree = MonteCarloTree::new(small_game());
    run(&mut tree, 50, ONE, ONE / 2);
    let policy = tree.get_policy();
    assert_eq!(policy.visits.len(), 3);
    assert_eq!(policy.visits.iter().sum::<usize>(), policy.total);
    assert_eq!(policy.total, 49);
    let sum: f32 = policy.visits.iter().map(|v| *v as f32 / policy.total as f32).sum();
    assert!((sum - 1.0).abs() < 1e-5);
}

#[test]
fn each_simulation_adds_one_visit_to_one_edge_of_each_node_on_its_path() {
    let mut tree = MonteCarloTree::new(small_game());
    run(&mut tree, 1, ONE, ONE / 2);
    for _ in 0..40 {
        let root_before = tree.get_policy();
        let below_before: Vec<usize> =
            (0..2).map(|i| tree.edge_at(&vec![0], i).map(|e| e.1.descends).unwrap_or(0)).collect();
        let expanded_before = tree.value_at(&vec![0]).is_some();
        run(&mut tree, 1, ONE, ONE / 2);
        let root_after = tree.get_policy();
        let grown: Vec<usize> = (0..3)
            .filter(|&i| root_after.visits[i] != root_before.visits[i])
            .collect();
        assert_eq!(grown.len(), 1);
        assert_eq!(root_after.visits[grown[0]], root_before.visits[grown[0]] + 1);
        let below_after: Vec<usize> =
            (0..2).map(|i| tree.edge_at(&vec![0], i).map(|e| e.1.descends).unwrap_or(0)).collect();
        let grown_below: usize = (0..2).map(|i| below_after[i] - below_before[i]).sum();
        if grown[0] == 0 && expanded_before {
            assert_eq!(grown_below, 1);
        } else {
            assert_eq!(grown_below, 0);
        }
    }
}

#[test]
fn first_simulation_after_expansion_takes_the_first_move() {
    // Without visits every score is zero, and the first of equals is taken.
    let mut tree = MonteCarloTree::new(small_game());
    assert_eq!(tree.do_simulations(2, ONE), 2);
    tree.provide_evaluation(score(ONE / 2), &vec![score(100), score(60000), score(5436)]).unwrap();
    assert_eq!(tree.do_simulations(1, ONE), 1);
    assert_eq!(tree.pending_state().unwrap().position, 1);
    assert!(tree.is_waiting());
}

#[test]
fn selection_follows_the_scores() {
    let mut tree = MonteCarloTree::new(small_game());
    let priors = vec![score(ONE / 4), score(ONE / 2), score(ONE / 4)];
    assert_eq!(tree.do_simulations(1, ONE), 1);
    tree.provide_evaluation(score(ONE / 2), &priors).unwrap();
    // Second simulation: first move, which needs an evaluation; value 1/8, flipped.
    assert_eq!(tree.do_simulations(1, ONE), 1);
    tree.provide_evaluation(score(ONE / 8), &vec![score(ONE / 2), score(ONE / 2)]).unwrap();
    let first = tree.edge_at(&vec![], 0).unwrap().1;
    assert_eq!((first.descends, first.total_score), (1, (ONE - ONE / 8) as u128));
    // Third simulation, with one visit at the root.
    let root = scaled_sqrt(1);
    assert_eq!(root, 65536);
    let scores = [
        edge_score(ONE, ONE / 4, first.total_score, 1, root),
        edge_score(ONE, ONE / 2, 0, 0, root),
        edge_score(ONE, ONE / 4, 0, 0, root),
    ];
    // 7/8 + 1/4 / 2, 1/2, 1/4.
    assert_eq!(scores, [57344 + 8192, 32768, 16384]);
    // The first move is best again; below it the first move leads to a win, which
    // is a loss one move up and a win again at the root.
    assert_eq!(tree.do_simulations(1, ONE), 0);
    let below = tree.edge_at(&vec![0], 0).unwrap().1;
    assert_eq!((below.descends, below.total_score), (1, 0));
    let first = tree.edge_at(&vec![], 0).unwrap().1;
    assert_eq!((first.descends, first.total_score), (2, (57344 + ONE) as u128));
    assert_eq!(tree.get_policy().visits, vec![2, 0, 0]);
    // Fourth simulation, with two visits at the root: sqrt(2) = 92681 / 65536.
    let root = scaled_sqrt(2);
    let scores = [
        edge_score(ONE, ONE / 4, first.total_score, 2, root),
        edge_score(ONE, ONE / 2, 0, 0, root),
        edge_score(ONE, ONE / 4, 0, 0, root),
    ];
    assert_eq!(scores, [61440 + 7723, 46340, 23170]);
    assert_eq!(tree.do_simulations(1, ONE), 0);
    assert_eq!(tree.get_policy().visits, vec![3, 0, 0]);
}

#[test]
fn low_exploitation_lets_the_prior_decide() {
    // Two moves to finished positions: the first scores nothing for the mover, the
    // second everything, but the first has all of the prior.
    let game = TableGame {
        position: 0,
        table: vec![Err(vec![step(1, true), step(2, true)]), Ok(ONE), Ok(0)],
    };
    let mut tree = MonteCarloTree::new(game);
    assert_eq!(tree.do_simulations(1, 4 * ONE), 1);
    tree.provide_evaluation(Score::half(), &vec![score(ONE - 1), score(1)]).unwrap();
    assert_eq!(tree.do_simulations(3, 4 * ONE), 0);
    // Means 0 and -, bonuses 4 * sqrt(N) / (1 + n) against next to nothing.
    assert_eq!(tree.get_policy().visits, vec![3, 0]);
    // Without exploration the second move is found as soon as the first has lost.
    let game = TableGame {
        position: 0,
        table: vec![Err(vec![step(1, true), step(2, true)]), Ok(ONE), Ok(0)],
    };
    let mut tree = MonteCarloTree::new(game);
    assert_eq!(tree.do_simulations(1, 0), 1);
    tree.provide_evaluation(Score::half(), &vec![score(ONE - 1), score(1)]).unwrap();
    assert_eq!(tree.do_simulations(8, 0), 0);
    // All scores equal zero until the second move is tried; it is never tried,
    // because the first of equals is taken.
    assert_eq!(tree.get_policy().visits, vec![8, 0]);
    let game = TableGame {
        position: 0,
        table: vec![Err(vec![step(1, true), step(2, true)]), Ok(ONE), Ok(0)],
    };
    let mut tree = MonteCarloTree::new(game);
    assert_eq!(tree.do_simulations(1, ONE), 1);
    tree.provide_evaluation(Score::half(), &vec![score(ONE / 2), score(ONE / 2)]).unwrap();
    assert_eq!(tree.do_simulations(8, ONE), 0);
    // With equal priors the winning second move takes over after one try of the first.
    assert_eq!(tree.get_policy().visits, vec![1, 7]);
}

#[test]
fn score_formula_gives_exact_values() {
    assert_eq!(integer_sqrt(0), 0);
    assert_eq!(integer_sqrt(1), 1);
    assert_eq!(integer_sqrt(3), 1);
    assert_eq!(integer_sqrt(4), 2);
    assert_eq!(integer_sqrt(99), 9);
    assert_eq!(integer_sqrt(u128::MAX), u64::MAX);
    assert_eq!(scaled_sqrt(0), 0);
    assert_eq!(scaled_sqrt(4), 2 * 65536);
    // sqrt(2) * 65536 = 92681.9...
    assert_eq!(scaled_sqrt(2), 92681);
    // mean 3/4, bonus 1.5 * 0.5 * sqrt(4) / (1 + 2) = 0.5
    assert_eq!(edge_score(3 * ONE / 2, ONE / 2, 98304, 2, scaled_sqrt(4)), 49152 + 32768);
    // No visits: no mean; bonus 2 * 1 * sqrt(9) / 1 = 6
    assert_eq!(edge_score(2 * ONE, ONE, 0, 0, scaled_sqrt(9)), 6 * 65536);
    // Nothing visited below the parent: no bonus.
    assert_eq!(edge_score(2 * ONE, ONE, 0, 0, scaled_sqrt(0)), 0);
}

#[test]
fn expanded_node_is_not_evaluated_again() {
    let game = TableGame { position: 0, table: vec![Err(vec![step(1, true)]), Ok(ONE / 4)] };
    let mut tree = MonteCarloTree::new(game);
    // Root and then the finished position: only the root asks for an evaluation.
    assert_eq!(run(&mut tree, 10, ONE, ONE / 2), 1);
    assert_eq!(tree.value_at(&vec![]).unwrap(), Score::half());
    assert_eq!(tree.value_at(&vec![0]).unwrap().parts(), ONE / 4);
    assert_eq!(tree.edge_at(&vec![], 0).unwrap().0.priority.parts(), ONE);
    // A second evaluation is refused and changes nothing.
    let before = tree.get_policy();
    assert_eq!(
        tree.provide_evaluation(Score::one(), &vec![Score::zero()]),
        Err(EvaluationError::NothingAwaited)
    );
    assert_eq!(tree.get_policy(), before);
    assert_eq!(tree.value_at(&vec![]).unwrap(), Score::half());
    assert_eq!(tree.edge_at(&vec![], 0).unwrap().0.priority.parts(), ONE);
}

#[test]
fn evaluation_with_wrong_number_of_priors_is_refused() {
    let mut tree = MonteCarloTree::new(small_game());
    assert_eq!(
        tree.provide_evaluation(Score::half(), &vec![]),
        Err(EvaluationError::NothingAwaited)
    );
    assert_eq!(tree.do_simulations(3, ONE), 3);
    assert_eq!(
        tree.provide_evaluation(Score::half(), &vec![Score::half(), Score::half()]),
        Err(EvaluationError::PriorCount)
    );
    assert!(tree.is_waiting());
    assert!(tree.value_at(&vec![]).is_none());
    // While it waits, the search does not go on.
    assert_eq!(tree.do_simulations(3, ONE), 3);
    assert!(tree.provide_evaluation(Score::half(), &vec![Score::zero(); 3]).is_ok());
    assert!(!tree.is_waiting());
    assert!(tree.pending_state().is_none());
    assert!(tree.pending_moves().is_none());
}

#[test]
fn finished_root_needs_no_evaluation() {
    let game = TableGame { position: 0, table: vec![Ok(777)] };
    let mut tree = MonteCarloTree::new(game);
    assert_eq!(tree.do_simulations(5, ONE), 0);
    assert_eq!(tree.value_at(&vec![]).unwrap().parts(), 777);
    let policy = tree.get_policy();
    assert!(policy.visits.is_empty());
    assert_eq!(policy.total, 0);
    assert_eq!(tree.node_count_at(&vec![]), Some(1));
}

#[test]
fn advancing_keeps_the_subtree() {
    let mut tree = MonteCarloTree::new(small_game());
    run(&mut tree, 30, ONE, ONE / 2);
    assert_eq!(tree.node_count_at(&vec![]), Some(6));
    let nodes = tree.node_count_at(&vec![0]).unwrap();
    assert_eq!(nodes, 3);
    let value = tree.value_at(&vec![0]).unwrap();
    let edges: Vec<_> = (0..2).map(|i| tree.edge_at(&vec![0], i).unwrap().1).collect();
    assert!(edges.iter().map(|e| e.descends).sum::<usize>() > 0);
    tree.do_move(0);
    assert_eq!(tree.root_state().position, 1);
    assert_eq!(tree.node_count_at(&vec![]), Some(nodes));
    assert_eq!(tree.value_at(&vec![]).unwrap(), value);
    for i in 0..2 {
        let after = tree.edge_at(&vec![], i).unwrap().1;
        assert_eq!(after.descends, edges[i].descends);
        assert_eq!(after.total_score, edges[i].total_score);
    }
    assert_eq!(tree.get_policy().visits, edges.iter().map(|e| e.descends).collect::<Vec<_>>());
    assert!(tree.edge_at(&vec![], 2).is_none());
}

#[test]
fn advancing_gives_up_an_awaited_evaluation() {
    let mut tree = MonteCarloTree::new(small_game());
    run(&mut tree, 1, ONE, ONE / 2);
    assert_eq!(tree.do_simulations(1, ONE), 1);
    assert!(tree.is_waiting());
    tree.do_move(2);
    assert!(!tree.is_waiting());
    assert_eq!(tree.root_state().position, 3);
    assert!(tree.value_at(&vec![]).is_none());
}

#[test]
fn paths_that_leave_the_tree_find_nothing() {
    let mut tree = MonteCarloTree::new(small_game());
    assert!(tree.edge_at(&vec![], 0).is_none());
    assert!(tree.value_at(&vec![0]).is_none());
    run(&mut tree, 1, ONE, ONE / 2);
    assert!(tree.edge_at(&vec![], 3).is_none());
    assert!(tree.value_at(&vec![0]).is_none());
    assert_eq!(tree.node_count_at(&vec![0]), Some(1));
    assert_eq!(tree.node_count_at(&vec![0, 0]), None);
    assert_eq!(tree.node_count_at(&vec![3]), None);
    assert_eq!(tree.node_count_at(&vec![]), Some(4));
    assert!(tree.value_at(&vec![7]).is_none());
}

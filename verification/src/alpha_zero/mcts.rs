//! The search tree: lazy expansion, selection by score, and backing values up.

use vstd::prelude::*;
use crate::alpha_zero::game::Game;
use crate::alpha_zero::game::MoveParameters;
use crate::alpha_zero::game::legal_moves;
use crate::alpha_zero::game::lemma_reported_moves;
use crate::alpha_zero::game::TerminationState;
use crate::alpha_zero::puct::edge_score;
use crate::alpha_zero::puct::scaled_sqrt;
use crate::alpha_zero::score::Score;
use crate::alpha_zero::score::SCORE_ONE;
use crate::alpha_zero::score::score_values;
use crate::alpha_zero::tree_model::advanced;
use crate::alpha_zero::tree_model::backed_value;
use crate::alpha_zero::tree_model::best_among;
use crate::alpha_zero::tree_model::best_move;
use crate::alpha_zero::tree_model::children_count;
use crate::alpha_zero::tree_model::children_of;
use crate::alpha_zero::tree_model::descends;
use crate::alpha_zero::tree_model::edge_puct;
use crate::alpha_zero::tree_model::edge_well_formed;
use crate::alpha_zero::tree_model::EdgeView;
use crate::alpha_zero::tree_model::evaluated;
use crate::alpha_zero::tree_model::evaluated_expansion;
use crate::alpha_zero::tree_model::ExpansionView;
use crate::alpha_zero::tree_model::fresh_children;
use crate::alpha_zero::tree_model::lemma_evaluated_expansion_fits;
use crate::alpha_zero::tree_model::lemma_node_at_well_formed;
use crate::alpha_zero::tree_model::lemma_path_push;
use crate::alpha_zero::tree_model::lemma_settled_well_formed;
use crate::alpha_zero::tree_model::lemma_sum_visits_bounds_each;
use crate::alpha_zero::tree_model::lemma_sum_visits_prefix;
use crate::alpha_zero::tree_model::lemma_sum_visits_step;
use crate::alpha_zero::tree_model::lemma_terminal_expansion_fits;
use crate::alpha_zero::tree_model::node_at;
use crate::alpha_zero::tree_model::node_count;
use crate::alpha_zero::tree_model::node_visits;
use crate::alpha_zero::tree_model::NodeView;
use crate::alpha_zero::tree_model::search_well_formed;
use crate::alpha_zero::tree_model::SearchView;
use crate::alpha_zero::tree_model::selected_path;
use crate::alpha_zero::tree_model::settled;
use crate::alpha_zero::tree_model::simulations;
use crate::alpha_zero::tree_model::sum_visits;
use crate::alpha_zero::tree_model::terminal_expansion;
use crate::alpha_zero::tree_model::valid_path;
use crate::alpha_zero::tree_model::well_formed;

verus! {

/// What the simulations have gathered on one edge.
#[derive(Clone, Copy, Debug)]
pub struct MoveDynamicInfo {
    pub total_score: u128,
    pub descends: usize,
}

/// What is fixed on one edge when its node is expanded.
#[derive(Clone, Copy, Debug)]
pub struct MoveStaticInfo {
    pub priority: Score,
    pub player_switch: bool,
}

struct Child<T> {
    node: MonteCarloNode<T>,
    fixed: MoveStaticInfo,
    stats: MoveDynamicInfo,
}

struct NodeState<T> {
    value: Score,
    is_terminal: bool,
    children: Vec<Child<T>>,
}

/// A position and, once it was evaluated, its expansion.
struct MonteCarloNode<T> {
    game_state: T,
    node_state: Option<NodeState<T>>,
}

impl<T> Child<T> {
    spec fn view(&self) -> EdgeView<T>
        decreases self,
    {
        EdgeView {
            prior: self.fixed.priority.value(),
            player_switch: self.fixed.player_switch,
            total_score: self.stats.total_score as nat,
            visits: self.stats.descends as nat,
            node: self.node.view(),
        }
    }
}

impl<T> NodeState<T> {
    spec fn view(&self) -> ExpansionView<T>
        decreases self,
    {
        ExpansionView {
            value: self.value.value(),
            terminal: self.is_terminal,
            children: Seq::new(
                self.children@.len(),
                |i: int|
                    if 0 <= i < self.children@.len() {
                        self.children@[i].view()
                    } else {
                        arbitrary()
                    },
            ),
        }
    }
}

impl<T> View for MonteCarloNode<T> {
    type V = NodeView<T>;

    closed spec fn view(&self) -> NodeView<T>
        decreases self,
    {
        NodeView {
            state: self.game_state,
            expansion: match self.node_state {
                None => None,
                Some(expansion) => Some(expansion.view()),
            },
        }
    }
}

impl<T> NodeState<T> {
    /// The number of simulations that went through any edge of the node.
    fn total_visits(&self) -> (total: usize)
        requires
            sum_visits(self.view().children) <= usize::MAX,
        ensures
            total == sum_visits(self.view().children),
    {
        let ghost edges = self.view().children;
        let mut total: usize = 0;
        let mut i: usize = 0;
        while i < self.children.len()
            invariant
                i <= self.children.len(),
                edges == self.view().children,
                edges.len() == self.children.len(),
                total == sum_visits(edges.take(i as int)),
                sum_visits(edges) <= usize::MAX,
            decreases self.children.len() - i,
        {
            proof {
                lemma_sum_visits_step(edges, i as int);
                lemma_sum_visits_prefix(edges, i + 1);
            }
            total = total + self.children[i].stats.descends;
            i = i + 1;
        }
        assert(edges.take(i as int) =~= edges);
        total
    }

    /// The edge to follow: the first one with the highest score.
    fn pick_next_move(&self, c_puct: u32) -> (best: usize)
        requires
            self.children.len() > 0,
            sum_visits(self.view().children) <= usize::MAX,
            forall|i: int|
                0 <= i < self.view().children.len() ==> (#[trigger] self.view().children[i]).total_score
                    <= self.view().children[i].visits * SCORE_ONE as nat,
        ensures
            best == best_move(self.view().children, c_puct as nat),
            best < self.children.len(),
    {
        let ghost edges = self.view().children;
        let total = self.total_visits();
        let root = scaled_sqrt(total);
        let mut best: usize = 0;
        let mut best_score: u128 = self.score_of(0, c_puct, root);
        let mut i: usize = 1;
        while i < self.children.len()
            invariant
                1 <= i <= self.children.len(),
                edges == self.view().children,
                edges.len() == self.children.len(),
                total == sum_visits(edges),
                root == crate::alpha_zero::puct::isqrt(
                    total as nat * SCORE_ONE as nat * SCORE_ONE as nat,
                ),
                root <= 0x1_0000_0000_0000,
                best == best_among(edges, c_puct as nat, i as nat),
                best < i,
                best_score == edge_puct(edges[best as int], total as nat, c_puct as nat),
                forall|i: int|
                    0 <= i < edges.len() ==> (#[trigger] edges[i]).total_score <= edges[i].visits
                        * SCORE_ONE as nat,
            decreases self.children.len() - i,
        {
            let score = self.score_of(i, c_puct, root);
            if score > best_score {
                best = i;
                best_score = score;
            }
            i = i + 1;
        }
        best
    }

    /// The score of edge `index`, given the scaled square root of the node's visits.
    fn score_of(&self, index: usize, c_puct: u32, root: u64) -> (score: u128)
        requires
            index < self.children.len(),
            root == crate::alpha_zero::puct::isqrt(
                sum_visits(self.view().children) * SCORE_ONE as nat * SCORE_ONE as nat,
            ),
            root <= 0x1_0000_0000_0000,
            self.view().children[index as int].total_score <= self.view().children[index as int].visits
                * SCORE_ONE as nat,
        ensures
            score == edge_puct(
                self.view().children[index as int],
                sum_visits(self.view().children),
                c_puct as nat,
            ),
    {
        let child = &self.children[index];
        let prior = child.fixed.priority.parts();
        edge_score(c_puct, prior, child.stats.total_score, child.stats.descends, root)
    }
}

impl<G: Game> NodeState<G> {
    /// The expansion of a position in which the game is over.
    fn terminal(value: Score) -> (expansion: Self)
        ensures
            expansion.view() == terminal_expansion::<G>(value.value()),
    {
        let expansion = NodeState { value, is_terminal: true, children: Vec::new() };
        assert(expansion.view().children =~= Seq::empty());
        expansion
    }

    /// The expansion of a position from one evaluation: one edge for each move, with
    /// its prior and no visits.
    fn evaluated(state: &G, moves: &Vec<G::Move>, value: Score, priors: &Vec<Score>) -> (expansion:
        Self)
        requires
            state.outcome().is_none(),
            moves@ == legal_moves(*state),
            priors.len() == moves.len(),
        ensures
            expansion.view() == evaluated_expansion(*state, value.value(), score_values(priors@)),
            forall|i: int|
                0 <= i < priors.len() ==> #[trigger] score_values(priors@)[i] <= SCORE_ONE,
    {
        let mut children: Vec<Child<G>> = Vec::new();
        let mut i: usize = 0;
        while i < moves.len()
            invariant
                i <= moves.len(),
                children.len() == i,
                state.outcome().is_none(),
                moves@ == legal_moves(*state),
                priors.len() == moves.len(),
                forall|j: int|
                    0 <= j < i ==> (#[trigger] children@[j]).view() == fresh_children(
                        *state,
                        score_values(priors@),
                    )[j],
                forall|j: int| 0 <= j < i ==> #[trigger] score_values(priors@)[j] <= SCORE_ONE,
            decreases moves.len() - i,
        {
            let m = &moves[i];
            assert(legal_moves(*state)[i as int] == *m);
            let priority = priors[i];
            proof {
                use_type_invariant(&priority);
            }
            let child = Child {
                node: MonteCarloNode::new(state.make_move(m)),
                fixed: MoveStaticInfo { priority, player_switch: m.is_player_switch() },
                stats: MoveDynamicInfo { total_score: 0, descends: 0 },
            };
            children.push(child);
            i = i + 1;
        }
        let expansion = NodeState { value, is_terminal: false, children };
        assert(expansion.view().children =~= fresh_children(*state, score_values(priors@)));
        expansion
    }
}

impl<T> MonteCarloNode<T> {
    /// A node for `state` that has not been evaluated.
    fn new(state: T) -> (node: Self)
        ensures
            node@ == (NodeView { state, expansion: None }),
    {
        Self { game_state: state, node_state: None }
    }
}

impl<G: Game> MonteCarloNode<G> {
    /// Follows the best edges down to the first node that is unexpanded or finished,
    /// and records the edges taken.
    fn select_leaf(&self, c_puct: u32, path: &mut Vec<usize>) -> (leaf: &Self)
        requires
            well_formed(self@),
            node_visits(self@) <= usize::MAX,
            old(path)@.len() == 0,
        ensures
            final(path)@ == selected_path(self@, c_puct as nat),
            valid_path(self@, final(path)@),
            leaf@ == node_at(self@, final(path)@),
            !descends(leaf@),
            well_formed(leaf@),
    {
        let mut cur = self;
        assert(path@ + selected_path(cur@, c_puct as nat) =~= selected_path(self@, c_puct as nat));
        loop
            invariant
                well_formed(self@),
                well_formed(cur@),
                node_visits(cur@) <= usize::MAX,
                valid_path(self@, path@),
                node_at(self@, path@) == cur@,
                selected_path(self@, c_puct as nat) == path@ + selected_path(cur@, c_puct as nat),
            decreases cur@,
        {
            match &cur.node_state {
                None => {
                    assert(path@ + Seq::<usize>::empty() =~= path@);
                    return cur;
                },
                Some(expansion) => {
                    if expansion.is_terminal {
                        assert(path@ + Seq::<usize>::empty() =~= path@);
                        return cur;
                    }
                    let ghost edges = expansion.view().children;
                    assert forall|i: int| 0 <= i < edges.len() implies (#[trigger] edges[i]).total_score
                        <= edges[i].visits * SCORE_ONE as nat by {
                        assert(edge_well_formed(cur@.state, i, edges[i]));
                    }
                    let m = expansion.pick_next_move(c_puct);
                    proof {
                        let below = edges[m as int].node;
                        assert(edge_well_formed(cur@.state, m as int, edges[m as int]));
                        lemma_sum_visits_bounds_each(edges, m as int);
                        lemma_path_push(self@, path@, m);
                        assert(selected_path(cur@, c_puct as nat) == seq![m] + selected_path(
                            below,
                            c_puct as nat,
                        ));
                        assert(path@.push(m) + selected_path(below, c_puct as nat) =~= path@ + (
                        seq![m] + selected_path(below, c_puct as nat)));
                    }
                    path.push(m);
                    cur = &expansion.children[m].node;
                },
            }
        }
    }
}

/// The expansion that `found` stands for.
spec fn found_view<T>(found: Option<NodeState<T>>) -> Option<ExpansionView<T>> {
    match found {
        None => None,
        Some(expansion) => Some(expansion.view()),
    }
}

impl<G: Game> MonteCarloNode<G> {
    /// Finishes one simulation along `path` from edge number `depth` on: the node at
    /// the end takes the expansion `found`, and on the way back up every edge gains a
    /// visit and the value, flipped wherever the player switches.
    fn settle(&mut self, path: &Vec<usize>, depth: usize, found: Option<NodeState<G>>, value: Score)
        -> (backed: Score)
        requires
            depth <= path.len(),
            well_formed(old(self)@),
            valid_path(old(self)@, path@.skip(depth as int)),
            depth < path.len() ==> node_visits(old(self)@) < usize::MAX,
        ensures
            final(self)@ == settled(
                old(self)@,
                path@.skip(depth as int),
                found_view(found),
                value.value(),
            ),
            backed.value() == backed_value(old(self)@, path@.skip(depth as int), value.value()),
        decreases path.len() - depth,
        no_unwind
    {
        let ghost rest = path@.skip(depth as int);
        let ghost before = self@;
        if depth == path.len() {
            match found {
                Some(expansion) => {
                    self.node_state = Some(expansion);
                },
                None => {},
            }
            value
        } else {
            let i = path[depth];
            assert(rest[0] == i);
            assert(rest.skip(1) =~= path@.skip(depth + 1));
            match &mut self.node_state {
                None => value,
                Some(expansion) => {
                    let ghost edges = expansion.view().children;
                    let child = &mut expansion.children[i];
                    proof {
                        use_type_invariant(&value);
                        assert(edge_well_formed(before.state, i as int, edges[i as int]));
                        lemma_sum_visits_bounds_each(edges, i as int);
                        crate::alpha_zero::tree_model::lemma_backed_value_in_range(
                            edges[i as int].node,
                            rest.skip(1),
                            value.value(),
                        );
                    }
                    let below = child.node.settle(path, depth + 1, found, value);
                    let backed = if child.fixed.player_switch {
                        below.flip()
                    } else {
                        below
                    };
                    let gain = backed.parts();
                    assert(child.stats.total_score + gain <= u128::MAX) by (nonlinear_arith)
                        requires
                            child.stats.total_score <= child.stats.descends * SCORE_ONE as nat,
                            child.stats.descends <= usize::MAX,
                            gain <= SCORE_ONE,
                            SCORE_ONE == 65536,
                            usize::MAX <= u64::MAX,
                    ;
                    child.stats.total_score = child.stats.total_score + gain as u128;
                    child.stats.descends = child.stats.descends + 1;
                    proof {
                        assert(self@.expansion->0.children =~= edges.update(
                            i as int,
                            settled(before, rest, found_view(found), value.value()).expansion->0.children[i as int],
                        ));
                    }
                    backed
                },
            }
        }
    }
}

/// Why an evaluation was not taken.
#[derive(Clone, Copy, Debug, PartialEq, Eq, Structural)]
pub enum EvaluationError {
    /// The search waits for no evaluation.
    NothingAwaited,
    /// The priors are not one for each move of the awaited position.
    PriorCount,
}

/// A search over one game: its tree, and the place where it waits for an evaluation.
pub struct MonteCarloTree<TGame: Game> {
    root: MonteCarloNode<TGame>,
    path: Vec<usize>,
    pending: Option<Vec<TGame::Move>>,
}

impl<TGame: Game> View for MonteCarloTree<TGame> {
    type V = SearchView<TGame>;

    closed spec fn view(&self) -> SearchView<TGame> {
        SearchView {
            root: self.root@,
            awaited: match self.pending {
                None => None,
                Some(_) => Some(self.path@),
            },
        }
    }
}

impl<TGame: Game> MonteCarloTree<TGame> {
    /// The moves that are kept for the awaited position are its legal moves.
    pub closed spec fn moves_kept(self) -> bool {
        match self.pending {
            None => true,
            Some(moves) => moves@ == legal_moves(node_at(self.root@, self.path@).state),
        }
    }

    /// What holds of every tree: its search is well-formed.
    #[verifier::type_invariant]
    pub open spec fn inv(self) -> bool {
        &&& search_well_formed(self@)
        &&& self.moves_kept()
    }

    /// A search that starts at `state`, with an unexpanded root.
    pub fn new(state: TGame) -> (tree: Self)
        ensures
            tree@ == (SearchView { root: NodeView { state, expansion: None }, awaited: None }),
    {
        Self { root: MonteCarloNode::new(state), path: Vec::new(), pending: None }
    }

    /// Runs up to `samples` simulations and returns how many are still to run. It
    /// stops early where a simulation reaches a position that needs an evaluation:
    /// the search then waits for it, and goes on only after `provide_evaluation`.
    pub fn do_simulations(&mut self, samples: usize, cpuct: u32) -> (remaining: usize)
        requires
            node_visits(old(self)@.root) + samples <= usize::MAX,
        ensures
            (final(self)@, remaining as nat) == simulations(old(self)@, samples as nat, cpuct as nat),
            remaining <= samples,
            remaining > 0 ==> final(self)@.awaited.is_some(),
    {
        proof {
            use_type_invariant(&*self);
        }
        let mut remaining = samples;
        while remaining > 0 && self.pending.is_none()
            invariant
                self.inv(),
                remaining <= samples,
                node_visits(self@.root) + remaining <= usize::MAX,
                simulations(old(self)@, samples as nat, cpuct as nat) == simulations(
                    self@,
                    remaining as nat,
                    cpuct as nat,
                ),
            decreases
                    remaining,
                    (if self@.awaited.is_none() {
                        1nat
                    } else {
                        0nat
                    }),
        {
            let ghost root = self@.root;
            let mut path: Vec<usize> = Vec::new();
            let leaf = self.root.select_leaf(cpuct, &mut path);
            proof {
                lemma_node_at_well_formed(root, path@);
                assert(path@.skip(0) =~= path@);
            }
            match &leaf.node_state {
                Some(expansion) => {
                    let value = expansion.value;
                    proof {
                        use_type_invariant(&value);
                        lemma_settled_well_formed(root, path@, None, value.value());
                    }
                    self.root.settle(&path, 0, None, value);
                    remaining = remaining - 1;
                },
                None => {
                    match leaf.game_state.get_state() {
                        TerminationState::Terminal(value) => {
                            let found = NodeState::terminal(value);
                            proof {
                                use_type_invariant(&value);
                                lemma_terminal_expansion_fits(leaf@.state, value);
                                lemma_settled_well_formed(
                                    root,
                                    path@,
                                    Some(found.view()),
                                    value.value(),
                                );
                            }
                            self.root.settle(&path, 0, Some(found), value);
                            remaining = remaining - 1;
                        },
                        TerminationState::Moves(moves) => {
                            proof {
                                lemma_reported_moves(leaf@.state, moves@);
                            }
                            self.path = path;
                            self.pending = Some(moves);
                        },
                    }
                },
            }
        }
        remaining
    }
}

impl<G: Game> MonteCarloNode<G> {
    /// The node that `path` leads to.
    fn descendant(&self, path: &Vec<usize>) -> (node: &Self)
        requires
            valid_path(self@, path@),
        ensures
            node@ == node_at(self@, path@),
    {
        let mut cur = self;
        let mut depth: usize = 0;
        assert(path@.skip(0) =~= path@);
        while depth < path.len()
            invariant
                depth <= path.len(),
                valid_path(cur@, path@.skip(depth as int)),
                node_at(cur@, path@.skip(depth as int)) == node_at(self@, path@),
            decreases path.len() - depth,
        {
            let i = path[depth];
            assert(path@.skip(depth as int)[0] == i);
            assert(path@.skip(depth as int).skip(1) =~= path@.skip(depth + 1));
            match &cur.node_state {
                None => {},
                Some(expansion) => {
                    cur = &expansion.children[i].node;
                },
            }
            depth = depth + 1;
        }
        cur
    }
}

/// How often each move of a position was tried, and how often any of them was.
/// Entry `i` of the policy of the search is `visits[i] / total`.
#[derive(Clone, Debug, PartialEq, Eq)]
pub struct Policy {
    pub visits: Vec<usize>,
    pub total: usize,
}

/// The sum of the counts.
pub open spec fn sum_counts(counts: Seq<usize>) -> nat
    decreases counts.len(),
{
    if counts.len() == 0 {
        0
    } else {
        sum_counts(counts.drop_last()) + counts.last() as nat
    }
}

impl<TGame: Game> MonteCarloTree<TGame> {
    /// The position whose evaluation the search waits for.
    pub fn pending_state(&self) -> (state: Option<&TGame>)
        ensures
            state == match self@.awaited {
                None => None,
                Some(path) => Some(&node_at(self@.root, path).state),
            },
    {
        proof {
            use_type_invariant(self);
        }
        match &self.pending {
            None => None,
            Some(_) => Some(&self.root.descendant(&self.path).game_state),
        }
    }

    /// The legal moves of the position whose evaluation the search waits for.
    pub fn pending_moves(&self) -> (moves: Option<&Vec<TGame::Move>>)
        ensures
            self@.awaited.is_none() <==> moves.is_none(),
            match (self@.awaited, moves) {
                (Some(path), Some(moves)) => moves@ == legal_moves(
                    node_at(self@.root, path).state,
                ),
                _ => true,
            },
    {
        proof {
            use_type_invariant(self);
        }
        match &self.pending {
            None => None,
            Some(moves) => Some(moves),
        }
    }

    /// Takes the evaluation of the awaited position: its value and one prior for each
    /// of its moves. The position is expanded, the value is backed up, and the search
    /// waits no longer. An evaluation that nothing waits for changes nothing.
    pub fn provide_evaluation(&mut self, value: Score, priors: &Vec<Score>) -> (taken: Result<
        (),
        EvaluationError,
    >)
        ensures
            final(self)@ == evaluated(old(self)@, value.value(), score_values(priors@)),
            taken == match old(self)@.awaited {
                None => Err::<(), EvaluationError>(EvaluationError::NothingAwaited),
                Some(path) => if priors.len() == legal_moves(
                    node_at(old(self)@.root, path).state,
                ).len() {
                    Ok(())
                } else {
                    Err(EvaluationError::PriorCount)
                },
            },
    {
        proof {
            use_type_invariant(&*self);
            use_type_invariant(&value);
            assert(self.path@.skip(0) =~= self.path@);
        }
        let ghost root = self@.root;
        let found = match &self.pending {
            None => {
                return Err(EvaluationError::NothingAwaited);
            },
            Some(moves) => {
                if priors.len() != moves.len() {
                    return Err(EvaluationError::PriorCount);
                }
                let leaf = self.root.descendant(&self.path);
                NodeState::evaluated(&leaf.game_state, moves, value, priors)
            },
        };
        proof {
            let state = node_at(root, self.path@).state;
            lemma_evaluated_expansion_fits(state, value.value(), score_values(priors@));
            lemma_settled_well_formed(root, self.path@, Some(found.view()), value.value());
        }
        self.pending = None;
        self.root.settle(&self.path, 0, Some(found), value);
        Ok(())
    }

    /// How often each move at the root was tried. The counts are as many as the root
    /// has edges, and they add up to the total.
    pub fn get_policy(&self) -> (policy: Policy)
        requires
            self@.root.expansion.is_some(),
        ensures
            policy.visits@.len() == children_of(self@.root).len(),
            forall|i: int|
                0 <= i < policy.visits@.len() ==> #[trigger] policy.visits@[i] == children_of(
                    self@.root,
                )[i].visits,
            policy.total == node_visits(self@.root),
            sum_counts(policy.visits@) == policy.total,
            !self@.root.expansion->0.terminal ==> policy.visits@.len()
                == legal_moves(self@.root.state).len(),
    {
        proof {
            use_type_invariant(self);
        }
        match &self.root.node_state {
            None => Policy { visits: Vec::new(), total: 0 },
            Some(expansion) => {
                let ghost edges = expansion.view().children;
                let mut visits: Vec<usize> = Vec::new();
                let mut total: usize = 0;
                let mut i: usize = 0;
                while i < expansion.children.len()
                    invariant
                        i <= expansion.children.len(),
                        edges == expansion.view().children,
                        edges.len() == expansion.children.len(),
                        visits@.len() == i,
                        forall|j: int| 0 <= j < i ==> #[trigger] visits@[j] == edges[j].visits,
                        total == sum_visits(edges.take(i as int)),
                        total == sum_counts(visits@),
                        sum_visits(edges) <= usize::MAX,
                    decreases expansion.children.len() - i,
                {
                    proof {
                        lemma_sum_visits_step(edges, i as int);
                        lemma_sum_visits_prefix(edges, i + 1);
                    }
                    let count = expansion.children[i].stats.descends;
                    let ghost before = visits@;
                    visits.push(count);
                    assert(visits@.drop_last() =~= before);
                    total = total + count;
                    i = i + 1;
                }
                assert(edges.take(i as int) =~= edges);
                Policy { visits, total }
            },
        }
    }

    /// Plays move `move_id` at the root: the subtree below that edge becomes the tree,
    /// with all it has gathered, and the subtrees of the other moves are dropped. An
    /// evaluation that the search waited for is given up.
    pub fn do_move(&mut self, move_id: usize)
        requires
            old(self)@.root.expansion.is_some(),
            move_id < children_of(old(self)@.root).len(),
        ensures
            final(self)@ == advanced(old(self)@, move_id as int),
    {
        proof {
            use_type_invariant(&*self);
        }
        let ghost root = self@.root;
        self.pending = None;
        let mut expansion: Option<NodeState<TGame>> = None;
        core::mem::swap(&mut self.root.node_state, &mut expansion);
        match expansion {
            None => {},
            Some(mut expansion) => {
                proof {
                    let edges = expansion.view().children;
                    assert(edge_well_formed(root.state, move_id as int, edges[move_id as int]));
                }
                let child = expansion.children.swap_remove(move_id);
                self.root = child.node;
            },
        }
    }
}

/// A count that stops at the largest number the machine can hold.
pub open spec fn capped(count: nat) -> usize {
    if count <= usize::MAX {
        count as usize
    } else {
        usize::MAX
    }
}

impl<G: Game> MonteCarloNode<G> {
    /// The node that `path` leads to, where every step of the path names an edge of a
    /// node below which the search goes on.
    fn find(&self, path: &Vec<usize>) -> (node: Option<&Self>)
        ensures
            valid_path(self@, path@) <==> node.is_some(),
            node matches Some(found) ==> found@ == node_at(self@, path@),
    {
        let mut cur = self;
        let mut depth: usize = 0;
        assert(path@.skip(0) =~= path@);
        while depth < path.len()
            invariant
                depth <= path.len(),
                valid_path(cur@, path@.skip(depth as int)) <==> valid_path(self@, path@),
                node_at(cur@, path@.skip(depth as int)) == node_at(self@, path@),
            decreases path.len() - depth,
        {
            let i = path[depth];
            assert(path@.skip(depth as int)[0] == i);
            assert(path@.skip(depth as int).skip(1) =~= path@.skip(depth + 1));
            match &cur.node_state {
                None => {
                    return None;
                },
                Some(expansion) => {
                    if expansion.is_terminal || i >= expansion.children.len() {
                        return None;
                    }
                    cur = &expansion.children[i].node;
                },
            }
            depth = depth + 1;
        }
        Some(cur)
    }

    /// The number of nodes of the tree below and with this node, as far as the
    /// machine can count.
    fn count_nodes(&self) -> (count: usize)
        ensures
            count == capped(node_count(self@)),
        decreases self,
    {
        match &self.node_state {
            None => 1,
            Some(expansion) => {
                let ghost edges = expansion.view().children;
                let mut count: usize = 1;
                let mut i: usize = 0;
                while i < expansion.children.len()
                    invariant
                        i <= expansion.children.len(),
                        self.node_state == Some(*expansion),
                        edges == expansion.view().children,
                        edges.len() == expansion.children.len(),
                        count == capped(1 + children_count(edges, i as nat)),
                    decreases expansion.children.len() - i,
                {
                    proof {
                        broadcast use vstd::std_specs::vec::axiom_vec_index_decreases;

                        assert(decreases_to!(self.node_state => self.node_state->0));
                        assert(decreases_to!(expansion.children => expansion.children[i as int]));
                    }
                    let below = expansion.children[i].node.count_nodes();
                    count = if below > usize::MAX - count {
                        usize::MAX
                    } else {
                        count + below
                    };
                    i = i + 1;
                }
                count
            },
        }
    }
}

impl<TGame: Game> MonteCarloTree<TGame> {
    /// The position at the root.
    pub fn root_state(&self) -> (state: &TGame)
        ensures
            *state == self@.root.state,
    {
        &self.root.game_state
    }

    /// Whether the search waits for an evaluation.
    pub fn is_waiting(&self) -> (waiting: bool)
        ensures
            waiting == self@.awaited.is_some(),
    {
        self.pending.is_some()
    }

    /// The value of the node that `path` leads to; `None` where the path is not one
    /// of the tree or the node is unexpanded.
    pub fn value_at(&self, path: &Vec<usize>) -> (value: Option<Score>)
        ensures
            value.is_some() <==> valid_path(self@.root, path@) && node_at(
                self@.root,
                path@,
            ).expansion.is_some(),
            value matches Some(score) ==> score.value() == node_at(
                self@.root,
                path@,
            ).expansion->0.value,
    {
        match self.root.find(path) {
            None => None,
            Some(node) => match &node.node_state {
                None => None,
                Some(expansion) => Some(expansion.value),
            },
        }
    }

    /// What edge `move_id` of the node that `path` leads to holds: what was fixed at
    /// its expansion, and what the simulations gathered. `None` where the path is not
    /// one of the tree or the node has no such edge.
    pub fn edge_at(&self, path: &Vec<usize>, move_id: usize) -> (edge: Option<
        (MoveStaticInfo, MoveDynamicInfo),
    >)
        ensures
            edge.is_some() <==> valid_path(self@.root, path@) && move_id < children_of(
                node_at(self@.root, path@),
            ).len(),
            edge matches Some((fixed, stats)) ==> {
                let model = children_of(node_at(self@.root, path@))[move_id as int];
                &&& fixed.priority.value() == model.prior
                &&& fixed.player_switch == model.player_switch
                &&& stats.total_score == model.total_score
                &&& stats.descends == model.visits
            },
    {
        match self.root.find(path) {
            None => None,
            Some(node) => match &node.node_state {
                None => None,
                Some(expansion) => {
                    if move_id < expansion.children.len() {
                        let child = &expansion.children[move_id];
                        Some((child.fixed, child.stats))
                    } else {
                        None
                    }
                },
            },
        }
    }

    /// The number of nodes of the subtree that `path` leads to, as far as the machine
    /// can count; `None` where the path is not one of the tree.
    pub fn node_count_at(&self, path: &Vec<usize>) -> (count: Option<usize>)
        ensures
            count.is_some() <==> valid_path(self@.root, path@),
            count matches Some(nodes) ==> nodes == capped(node_count(node_at(self@.root, path@))),
    {
        match self.root.find(path) {
            None => None,
            Some(node) => Some(node.count_nodes()),
        }
    }
}

} // verus!

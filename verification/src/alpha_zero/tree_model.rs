//! The search tree as a mathematical value, and what a simulation does to it.

use vstd::prelude::*;
use crate::alpha_zero::game::Game;
use crate::alpha_zero::game::MoveParameters;
use crate::alpha_zero::game::legal_moves;
use crate::alpha_zero::puct::puct_score;
use crate::alpha_zero::score::Score;
use crate::alpha_zero::score::SCORE_ONE;

verus! {

/// One move out of an expanded node: what was fixed when the node was expanded, what
/// the simulations have gathered since, and the subtree the move leads to.
pub struct EdgeView<G> {
    /// The prior of the move, in 65536ths.
    pub prior: nat,
    /// Whether the side to move changes with the move.
    pub player_switch: bool,
    /// The sum of the scores backed up through the edge, in 65536ths.
    pub total_score: nat,
    /// The number of simulations that went through the edge.
    pub visits: nat,
    /// The subtree below the edge.
    pub node: NodeView<G>,
}

/// What one evaluation of a node produced.
pub struct ExpansionView<G> {
    /// The value of the position for the side to move, in 65536ths.
    pub value: nat,
    /// Whether the game is over in this position.
    pub terminal: bool,
    /// One edge for each legal move, in the order of the moves.
    pub children: Seq<EdgeView<G>>,
}

/// A node of the search tree: a position, and its expansion once it was evaluated.
pub struct NodeView<G> {
    pub state: G,
    pub expansion: Option<ExpansionView<G>>,
}

/// The number of simulations that went through any of the edges.
pub open spec fn sum_visits<G>(children: Seq<EdgeView<G>>) -> nat
    decreases children.len(),
{
    if children.len() == 0 {
        0
    } else {
        sum_visits(children.drop_last()) + children.last().visits
    }
}

/// The number of simulations that went on below a node.
pub open spec fn node_visits<G>(node: NodeView<G>) -> nat {
    match node.expansion {
        None => 0,
        Some(expansion) => sum_visits(expansion.children),
    }
}

/// The number of nodes in a tree.
pub open spec fn node_count<G>(node: NodeView<G>) -> nat
    decreases node,
{
    match node.expansion {
        None => 1,
        Some(expansion) => 1 + children_count(expansion.children, expansion.children.len()),
    }
}

/// The number of nodes below the first `upto` edges.
pub open spec fn children_count<G>(children: Seq<EdgeView<G>>, upto: nat) -> nat
    decreases children, upto,
{
    if 0 < upto <= children.len() {
        children_count(children, (upto - 1) as nat) + node_count(children[upto - 1].node)
    } else {
        0
    }
}

/// The edges a fresh expansion creates: one for each move, with the given priors, no
/// visits, and an unexpanded node for the position the move leads to.
pub open spec fn fresh_children<G: Game>(state: G, priors: Seq<nat>) -> Seq<EdgeView<G>> {
    Seq::new(
        legal_moves(state).len(),
        |i: int|
            EdgeView {
                prior: priors[i],
                player_switch: legal_moves(state)[i].switches_player(),
                total_score: 0,
                visits: 0,
                node: NodeView { state: state.after(legal_moves(state)[i]), expansion: None },
            },
    )
}

/// The expansion of a position in which the game is over.
pub open spec fn terminal_expansion<G>(value: nat) -> ExpansionView<G> {
    ExpansionView { value, terminal: true, children: Seq::empty() }
}

/// The expansion of a position in which the game goes on, from one evaluation.
pub open spec fn evaluated_expansion<G: Game>(state: G, value: nat, priors: Seq<nat>)
    -> ExpansionView<G> {
    ExpansionView { value, terminal: false, children: fresh_children(state, priors) }
}

/// Whether an edge is as an expansion of `state` made it, and as simulations may have
/// changed it since.
pub open spec fn edge_well_formed<G: Game>(state: G, index: int, edge: EdgeView<G>) -> bool
    decreases edge, 0nat,
{
    &&& edge.prior <= SCORE_ONE
    &&& edge.player_switch == legal_moves(state)[index].switches_player()
    &&& edge.node.state == state.after(legal_moves(state)[index])
    &&& edge.total_score <= edge.visits * SCORE_ONE as nat
    &&& node_visits(edge.node) <= edge.visits
    &&& well_formed(edge.node)
}

/// Whether a tree is one that expansions and simulations can have built: a finished
/// position carries its outcome and no edges, any other expanded position one edge
/// for each legal move, and below an edge no more simulations went on than went
/// through it.
pub open spec fn well_formed<G: Game>(node: NodeView<G>) -> bool
    decreases node, 1nat,
{
    match node.expansion {
        None => true,
        Some(expansion) => {
            &&& expansion.value <= SCORE_ONE
            &&& if expansion.terminal {
                &&& expansion.children.len() == 0
                &&& node.state.outcome() == Some(Score::from_value(expansion.value))
            } else {
                &&& node.state.outcome().is_none()
                &&& expansion.children.len() == legal_moves(node.state).len()
                &&& expansion.children.len() > 0
                &&& forall|i: int|
                    0 <= i < expansion.children.len() ==> edge_well_formed(
                        node.state,
                        i,
                        #[trigger] expansion.children[i],
                    )
            }
        },
    }
}

/// The score by which an edge is ranked among its siblings.
pub open spec fn edge_puct<G>(edge: EdgeView<G>, parent_visits: nat, c_puct: nat) -> nat {
    puct_score(c_puct, edge.prior, edge.total_score, edge.visits, parent_visits)
}

/// The first edge with the highest score among the first `upto` edges.
pub open spec fn best_among<G>(children: Seq<EdgeView<G>>, c_puct: nat, upto: nat) -> int
    decreases upto,
{
    if upto <= 1 {
        0
    } else {
        let before = best_among(children, c_puct, (upto - 1) as nat);
        if edge_puct(children[upto - 1], sum_visits(children), c_puct) > edge_puct(
            children[before],
            sum_visits(children),
            c_puct,
        ) {
            upto - 1
        } else {
            before
        }
    }
}

/// The edge the search follows out of a node: the first one with the highest score.
pub open spec fn best_move<G>(children: Seq<EdgeView<G>>, c_puct: nat) -> int {
    best_among(children, c_puct, children.len())
}

/// Whether the search goes on below a node: it is expanded, the game is not over
/// there, and it has edges.
pub open spec fn descends<G>(node: NodeView<G>) -> bool {
    match node.expansion {
        None => false,
        Some(expansion) => !expansion.terminal && expansion.children.len() > 0,
    }
}

/// The edges of an expanded node; none for any other.
pub open spec fn children_of<G>(node: NodeView<G>) -> Seq<EdgeView<G>> {
    match node.expansion {
        None => Seq::empty(),
        Some(expansion) => expansion.children,
    }
}

/// The edge numbers a simulation follows from a node, down to the first node that is
/// unexpanded or finished.
pub open spec fn selected_path<G>(node: NodeView<G>, c_puct: nat) -> Seq<usize>
    decreases node,
{
    if descends(node) {
        let children = node.expansion->0.children;
        let m = best_move(children, c_puct);
        if 0 <= m < children.len() {
            seq![m as usize] + selected_path(children[m].node, c_puct)
        } else {
            Seq::empty()
        }
    } else {
        Seq::empty()
    }
}

/// Whether every step of `path` names an edge of a node below which the search goes
/// on.
pub open spec fn valid_path<G>(node: NodeView<G>, path: Seq<usize>) -> bool
    decreases path.len(),
{
    if path.len() == 0 {
        true
    } else {
        &&& descends(node)
        &&& path[0] < children_of(node).len()
        &&& valid_path(children_of(node)[path[0] as int].node, path.skip(1))
    }
}

/// The node that `path` leads to.
pub open spec fn node_at<G>(node: NodeView<G>, path: Seq<usize>) -> NodeView<G>
    decreases path.len(),
{
    if path.len() == 0 {
        node
    } else {
        node_at(children_of(node)[path[0] as int].node, path.skip(1))
    }
}

/// The value that reaches `node` from the end of `path`, where `value` starts: it is
/// flipped at every edge of the path that switches the player.
pub open spec fn backed_value<G>(node: NodeView<G>, path: Seq<usize>, value: nat) -> nat
    decreases path.len(),
{
    if path.len() == 0 {
        value
    } else {
        let edge = children_of(node)[path[0] as int];
        let below = backed_value(edge.node, path.skip(1), value);
        if edge.player_switch {
            (SCORE_ONE - below) as nat
        } else {
            below
        }
    }
}

/// The tree after one simulation along `path`: the node at its end takes the
/// expansion `found`, if there is one, and every edge of the path gains one visit and
/// the value that reaches it.
pub open spec fn settled<G>(
    node: NodeView<G>,
    path: Seq<usize>,
    found: Option<ExpansionView<G>>,
    value: nat,
) -> NodeView<G>
    decreases path.len(),
{
    if path.len() == 0 {
        match found {
            None => node,
            Some(expansion) => NodeView { state: node.state, expansion: Some(expansion) },
        }
    } else {
        let expansion = node.expansion->0;
        let edge = expansion.children[path[0] as int];
        let updated = EdgeView {
            prior: edge.prior,
            player_switch: edge.player_switch,
            total_score: edge.total_score + backed_value(node, path, value),
            visits: edge.visits + 1,
            node: settled(edge.node, path.skip(1), found, value),
        };
        NodeView {
            state: node.state,
            expansion: Some(
                ExpansionView {
                    value: expansion.value,
                    terminal: expansion.terminal,
                    children: expansion.children.update(path[0] as int, updated),
                },
            ),
        }
    }
}


/// The visits of the first `upto + 1` edges are those of the first `upto` and those of
/// the edge after them.
pub proof fn lemma_sum_visits_step<G>(children: Seq<EdgeView<G>>, upto: int)
    requires
        0 <= upto < children.len(),
    ensures
        sum_visits(children.take(upto + 1)) == sum_visits(children.take(upto))
            + children[upto].visits,
{
    assert(children.take(upto + 1).drop_last() =~= children.take(upto));
}

/// No prefix of the edges has more visits than all of them.
pub proof fn lemma_sum_visits_prefix<G>(children: Seq<EdgeView<G>>, upto: int)
    requires
        0 <= upto <= children.len(),
    ensures
        sum_visits(children.take(upto)) <= sum_visits(children),
    decreases children.len() - upto,
{
    if upto == children.len() {
        assert(children.take(upto) =~= children);
    } else {
        lemma_sum_visits_step(children, upto);
        lemma_sum_visits_prefix(children, upto + 1);
    }
}

/// No edge has more visits than all edges together.
pub proof fn lemma_sum_visits_bounds_each<G>(children: Seq<EdgeView<G>>, index: int)
    requires
        0 <= index < children.len(),
    ensures
        children[index].visits <= sum_visits(children),
{
    lemma_sum_visits_step(children, index);
    lemma_sum_visits_prefix(children, index + 1);
}

/// Replacing one edge changes the sum of the visits by the difference of its visits.
pub proof fn lemma_sum_visits_update<G>(children: Seq<EdgeView<G>>, index: int, edge: EdgeView<G>)
    requires
        0 <= index < children.len(),
    ensures
        sum_visits(children.update(index, edge)) + children[index].visits == sum_visits(children)
            + edge.visits,
    decreases children.len(),
{
    let updated = children.update(index, edge);
    if index == children.len() - 1 {
        assert(updated.drop_last() =~= children.drop_last());
    } else {
        assert(updated.drop_last() =~= children.drop_last().update(index, edge));
        lemma_sum_visits_update(children.drop_last(), index, edge);
    }
}

/// Edges without visits sum to no visits.
pub proof fn lemma_sum_visits_zero<G>(children: Seq<EdgeView<G>>)
    requires
        forall|i: int| 0 <= i < children.len() ==> (#[trigger] children[i]).visits == 0,
    ensures
        sum_visits(children) == 0,
    decreases children.len(),
{
    if children.len() > 0 {
        lemma_sum_visits_zero(children.drop_last());
    }
}

/// The chosen edge exists, no edge scores higher, and none before it scores as high.
pub proof fn lemma_best_among<G>(children: Seq<EdgeView<G>>, c_puct: nat, upto: nat)
    requires
        0 < upto <= children.len(),
    ensures
        0 <= best_among(children, c_puct, upto) < upto,
        forall|j: int|
            0 <= j < upto ==> edge_puct(#[trigger] children[j], sum_visits(children), c_puct)
                <= edge_puct(
                children[best_among(children, c_puct, upto)],
                sum_visits(children),
                c_puct,
            ),
        forall|j: int|
            0 <= j < best_among(children, c_puct, upto) ==> edge_puct(
                #[trigger] children[j],
                sum_visits(children),
                c_puct,
            ) < edge_puct(
                children[best_among(children, c_puct, upto)],
                sum_visits(children),
                c_puct,
            ),
    decreases upto,
{
    if upto > 1 {
        lemma_best_among(children, c_puct, (upto - 1) as nat);
    }
}

/// One more step at the end of a valid path gives a valid path, which leads to the
/// node below that step.
pub proof fn lemma_path_push<G>(node: NodeView<G>, path: Seq<usize>, step: usize)
    requires
        valid_path(node, path),
        descends(node_at(node, path)),
        step < children_of(node_at(node, path)).len(),
    ensures
        valid_path(node, path.push(step)),
        node_at(node, path.push(step)) == children_of(node_at(node, path))[step as int].node,
    decreases path.len(),
{
    let longer = path.push(step);
    if path.len() == 0 {
        let below = children_of(node)[step as int].node;
        assert(longer[0] == step);
        assert(longer.skip(1) =~= Seq::<usize>::empty());
        assert(valid_path(below, longer.skip(1)));
        assert(node_at(below, longer.skip(1)) == below);
    } else {
        let below = children_of(node)[path[0] as int].node;
        assert(longer[0] == path[0]);
        assert(longer.skip(1) =~= path.skip(1).push(step));
        lemma_path_push(below, path.skip(1), step);
        assert(valid_path(below, longer.skip(1)));
    }
}

/// Every node on a valid path through a well-formed tree is well-formed.
pub proof fn lemma_node_at_well_formed<G: Game>(node: NodeView<G>, path: Seq<usize>)
    requires
        well_formed(node),
        valid_path(node, path),
    ensures
        well_formed(node_at(node, path)),
        path.len() > 0 ==> node_visits(node_at(node, path)) <= node_visits(node),
        node_visits(node_at(node, path)) <= node_visits(node),
    decreases path.len(),
{
    if path.len() > 0 {
        let children = children_of(node);
        let edge = children[path[0] as int];
        assert(edge_well_formed(node.state, path[0] as int, edge));
        lemma_node_at_well_formed(edge.node, path.skip(1));
        lemma_sum_visits_bounds_each(children, path[0] as int);
    }
}

/// Whether `found` can become the expansion of the node at the end of `path`: that
/// node is unexpanded, the expansion suits its position, and none of its edges has
/// been visited.
pub open spec fn fits_leaf<G: Game>(
    node: NodeView<G>,
    path: Seq<usize>,
    found: Option<ExpansionView<G>>,
) -> bool {
    match found {
        None => true,
        Some(expansion) => {
            &&& node_at(node, path).expansion.is_none()
            &&& well_formed(
                NodeView { state: node_at(node, path).state, expansion: Some(expansion) },
            )
            &&& sum_visits(expansion.children) == 0
        },
    }
}

/// A value that is backed up stays between zero and one.
pub proof fn lemma_backed_value_in_range<G>(node: NodeView<G>, path: Seq<usize>, value: nat)
    requires
        value <= SCORE_ONE,
    ensures
        backed_value(node, path, value) <= SCORE_ONE,
    decreases path.len(),
{
    if path.len() > 0 {
        lemma_backed_value_in_range(children_of(node)[path[0] as int].node, path.skip(1), value);
    }
}

/// A simulation leaves a well-formed tree well-formed. It keeps the position at the
/// top, and adds one visit below the top unless the path is empty.
pub proof fn lemma_settled_well_formed<G: Game>(
    node: NodeView<G>,
    path: Seq<usize>,
    found: Option<ExpansionView<G>>,
    value: nat,
)
    requires
        well_formed(node),
        valid_path(node, path),
        fits_leaf(node, path, found),
        value <= SCORE_ONE,
    ensures
        well_formed(settled(node, path, found, value)),
        settled(node, path, found, value).state == node.state,
        path.len() > 0 ==> node_visits(settled(node, path, found, value)) == node_visits(node)
            + 1,
        path.len() == 0 ==> node_visits(settled(node, path, found, value)) == node_visits(node),
    decreases path.len(),
{
    if path.len() > 0 {
        let expansion = node.expansion->0;
        let index = path[0] as int;
        let edge = expansion.children[index];
        let after = settled(node, path, found, value);
        let updated = after.expansion->0.children[index];
        assert(edge_well_formed(node.state, index, edge));
        lemma_settled_well_formed(edge.node, path.skip(1), found, value);
        lemma_backed_value_in_range(node, path, value);
        lemma_sum_visits_update(expansion.children, index, updated);
        assert(updated.total_score <= updated.visits * SCORE_ONE as nat) by (nonlinear_arith)
            requires
                updated.total_score <= edge.total_score + SCORE_ONE,
                edge.total_score <= edge.visits * SCORE_ONE as nat,
                updated.visits == edge.visits + 1,
        ;
        assert(edge_well_formed(node.state, index, updated));
        assert forall|i: int| 0 <= i < after.expansion->0.children.len() implies edge_well_formed(
            node.state,
            i,
            #[trigger] after.expansion->0.children[i],
        ) by {
            if i != index {
                assert(after.expansion->0.children[i] == expansion.children[i]);
                assert(edge_well_formed(node.state, i, expansion.children[i]));
            }
        }
    }
}

/// A search in progress: its tree, and the path to the node whose evaluation the
/// search waits for, if it waits for one.
pub struct SearchView<G> {
    pub root: NodeView<G>,
    pub awaited: Option<Seq<usize>>,
}

/// Whether a search is one that the operations of a tree can have reached: its tree is
/// well-formed, the visits below the root fit the machine's counter, and a node whose
/// evaluation is awaited is unexpanded, unfinished, and reached by a valid path.
pub open spec fn search_well_formed<G: Game>(search: SearchView<G>) -> bool {
    &&& well_formed(search.root)
    &&& node_visits(search.root) <= usize::MAX
    &&& match search.awaited {
        None => true,
        Some(path) => {
            &&& valid_path(search.root, path)
            &&& node_at(search.root, path).expansion.is_none()
            &&& node_at(search.root, path).state.outcome().is_none()
            &&& legal_moves(node_at(search.root, path).state).len() > 0
            &&& path.len() > 0 ==> node_visits(search.root) < usize::MAX
        },
    }
}

/// One simulation on a search that waits for nothing. The path follows the best edges
/// to the first node that is unexpanded or finished. A node that is expanded already
/// gives its value; an unexpanded node in which the game is over takes its outcome as
/// expansion and value; in both cases the value is backed up along the path. Any
/// other node needs an evaluation: the tree stays as it is and the search waits.
pub open spec fn simulated<G: Game>(root: NodeView<G>, c_puct: nat) -> SearchView<G> {
    let path = selected_path(root, c_puct);
    let leaf = node_at(root, path);
    match leaf.expansion {
        Some(expansion) => SearchView {
            root: settled(root, path, None, expansion.value),
            awaited: None,
        },
        None => match leaf.state.outcome() {
            Some(score) => SearchView {
                root: settled(
                    root,
                    path,
                    Some(terminal_expansion(score.value())),
                    score.value(),
                ),
                awaited: None,
            },
            None => SearchView { root, awaited: Some(path) },
        },
    }
}

/// Up to `samples` simulations, one after the other, and the number of them that
/// are still to run. The run stops early where a simulation needs an evaluation: that
/// simulation counts among those still to run.
pub open spec fn simulations<G: Game>(search: SearchView<G>, samples: nat, c_puct: nat) -> (
    SearchView<G>,
    nat,
)
    decreases samples,
{
    if samples == 0 || search.awaited.is_some() {
        (search, samples)
    } else {
        let next = simulated(search.root, c_puct);
        if next.awaited.is_some() {
            (next, samples)
        } else {
            simulations(next, (samples - 1) as nat, c_puct)
        }
    }
}

/// The search after the awaited evaluation arrived: the awaited node is expanded with
/// one edge for each of its moves, and its value is backed up along the path. Where
/// nothing is awaited, or the priors are not one for each move, nothing changes.
pub open spec fn evaluated<G: Game>(search: SearchView<G>, value: nat, priors: Seq<nat>)
    -> SearchView<G> {
    match search.awaited {
        None => search,
        Some(path) => {
            let state = node_at(search.root, path).state;
            if priors.len() == legal_moves(state).len() {
                SearchView {
                    root: settled(
                        search.root,
                        path,
                        Some(evaluated_expansion(state, value, priors)),
                        value,
                    ),
                    awaited: None,
                }
            } else {
                search
            }
        },
    }
}

/// The search after move `index` was played: the subtree below that edge, as it is.
pub open spec fn advanced<G>(search: SearchView<G>, index: int) -> SearchView<G> {
    SearchView { root: children_of(search.root)[index].node, awaited: None }
}

/// A finished position can take its outcome as expansion.
pub proof fn lemma_terminal_expansion_fits<G: Game>(state: G, score: Score)
    requires
        state.outcome() == Some(score),
        score.in_range(),
    ensures
        well_formed(
            NodeView { state, expansion: Some(terminal_expansion::<G>(score.value())) },
        ),
        sum_visits(terminal_expansion::<G>(score.value()).children) == 0,
{
    Score::lemma_from_value_of_value(score);
}

/// An unfinished position can take an evaluation as expansion, where there is one
/// prior for each of its moves.
pub proof fn lemma_evaluated_expansion_fits<G: Game>(state: G, value: nat, priors: Seq<nat>)
    requires
        state.outcome().is_none(),
        legal_moves(state).len() > 0,
        priors.len() == legal_moves(state).len(),
        value <= SCORE_ONE,
        forall|i: int| 0 <= i < priors.len() ==> #[trigger] priors[i] <= SCORE_ONE,
    ensures
        well_formed(
            NodeView { state, expansion: Some(evaluated_expansion(state, value, priors)) },
        ),
        sum_visits(evaluated_expansion(state, value, priors).children) == 0,
{
    let children = fresh_children(state, priors);
    lemma_sum_visits_zero(children);
    assert forall|i: int| 0 <= i < children.len() implies edge_well_formed(
        state,
        i,
        #[trigger] children[i],
    ) by {
        assert(children[i].total_score <= children[i].visits * SCORE_ONE as nat);
    }
}

/// The path that a simulation follows is valid.
pub proof fn lemma_selected_path_valid<G: Game>(node: NodeView<G>, c_puct: nat)
    requires
        well_formed(node),
    ensures
        valid_path(node, selected_path(node, c_puct)),
        !descends(node_at(node, selected_path(node, c_puct))),
    decreases node,
{
    if descends(node) {
        let children = node.expansion->0.children;
        let m = best_move(children, c_puct);
        lemma_best_among(children, c_puct, children.len());
        let path = selected_path(node, c_puct);
        let below = selected_path(children[m].node, c_puct);
        assert(edge_well_formed(node.state, m, children[m]));
        assert(path == seq![m as usize] + below);
        assert(path[0] == m as usize);
        assert(path.skip(1) =~= below);
        lemma_selected_path_valid(children[m].node, c_puct);
    }
}

/// Each simulation adds one visit to exactly one edge of every node on its path.
/// At the top of the path the edge that the path takes gains one visit and the value
/// that reaches it, every other edge stays as it is with all that lies below it, and
/// below the edge taken the same holds of the rest of the path.
pub proof fn lemma_simulation_visits<G>(
    node: NodeView<G>,
    path: Seq<usize>,
    found: Option<ExpansionView<G>>,
    value: nat,
)
    requires
        valid_path(node, path),
        path.len() > 0,
    ensures
        ({
            let before = children_of(node);
            let after = children_of(settled(node, path, found, value));
            let taken = path[0] as int;
            &&& after.len() == before.len()
            &&& after[taken].visits == before[taken].visits + 1
            &&& after[taken].total_score == before[taken].total_score + backed_value(
                node,
                path,
                value,
            )
            &&& after[taken].node == settled(before[taken].node, path.skip(1), found, value)
            &&& forall|j: int| 0 <= j < before.len() && j != taken ==> after[j] == before[j]
            &&& sum_visits(after) == sum_visits(before) + 1
        }),
{
    let before = children_of(node);
    let after = children_of(settled(node, path, found, value));
    lemma_sum_visits_update(before, path[0] as int, after[path[0] as int]);
}

/// At the end of its path a simulation leaves the node as it was, unless it found an
/// expansion for it: then the node has that expansion and its position is the same.
pub proof fn lemma_settled_leaf<G>(
    node: NodeView<G>,
    path: Seq<usize>,
    found: Option<ExpansionView<G>>,
    value: nat,
)
    requires
        valid_path(node, path),
    ensures
        valid_path(settled(node, path, found, value), path),
        node_at(settled(node, path, found, value), path) == match found {
            None => node_at(node, path),
            Some(expansion) => NodeView {
                state: node_at(node, path).state,
                expansion: Some(expansion),
            },
        },
    decreases path.len(),
{
    if path.len() > 0 {
        let edge = children_of(node)[path[0] as int];
        lemma_settled_leaf(edge.node, path.skip(1), found, value);
        let after = settled(node, path, found, value);
        assert(children_of(after)[path[0] as int].node == settled(
            edge.node,
            path.skip(1),
            found,
            value,
        ));
    }
}

/// An expansion is made once. A simulation that passes through an expanded node
/// keeps what the evaluation of that node gave: its value, whether the game is over
/// there, and for each move its prior, whether it switches the player, and the
/// position it leads to.
pub proof fn lemma_settled_keeps_expansion<G>(
    node: NodeView<G>,
    path: Seq<usize>,
    found: Option<ExpansionView<G>>,
    value: nat,
)
    requires
        valid_path(node, path),
        node.expansion.is_some(),
        path.len() == 0 ==> found.is_none(),
    ensures
        ({
            let before = node.expansion->0;
            let after = settled(node, path, found, value).expansion;
            &&& after.is_some()
            &&& after->0.value == before.value
            &&& after->0.terminal == before.terminal
            &&& after->0.children.len() == before.children.len()
            &&& forall|i: int|
                0 <= i < before.children.len() ==> {
                    &&& (#[trigger] after->0.children[i]).prior == before.children[i].prior
                    &&& after->0.children[i].player_switch == before.children[i].player_switch
                    &&& after->0.children[i].node.state == before.children[i].node.state
                }
        }),
{
    if path.len() > 0 {
        let edge = children_of(node)[path[0] as int];
        if path.skip(1).len() > 0 {
            assert(settled(edge.node, path.skip(1), found, value).state == edge.node.state);
        } else {
            assert(settled(edge.node, path.skip(1), found, value).state == edge.node.state);
        }
    }
}

/// A simulation asks for an evaluation only of a node that has none. Where the
/// path of a simulation ends in a node that is expanded, the search waits for
/// nothing afterwards, and that node is as it was.
pub proof fn lemma_expanded_leaf_is_kept<G: Game>(root: NodeView<G>, c_puct: nat)
    requires
        well_formed(root),
        node_at(root, selected_path(root, c_puct)).expansion.is_some(),
    ensures
        simulated(root, c_puct).awaited.is_none(),
        node_at(simulated(root, c_puct).root, selected_path(root, c_puct)) == node_at(
            root,
            selected_path(root, c_puct),
        ),
{
    let path = selected_path(root, c_puct);
    lemma_selected_path_valid(root, c_puct);
    lemma_settled_leaf(root, path, None, node_at(root, path).expansion->0.value);
}

/// An awaited node is unexpanded: where a simulation makes the search wait, the node
/// at the end of the awaited path has no expansion, and the tree is as it was.
pub proof fn lemma_awaited_leaf_is_unexpanded<G: Game>(root: NodeView<G>, c_puct: nat)
    requires
        simulated(root, c_puct).awaited.is_some(),
    ensures
        simulated(root, c_puct).root == root,
        simulated(root, c_puct).awaited == Some(selected_path(root, c_puct)),
        node_at(root, selected_path(root, c_puct)).expansion.is_none(),
        node_at(root, selected_path(root, c_puct)).state.outcome().is_none(),
{
}

/// An evaluation is taken once: after it was taken the search waits for nothing, and
/// a second evaluation changes nothing.
pub proof fn lemma_evaluation_is_taken_once<G: Game>(
    search: SearchView<G>,
    value: nat,
    priors: Seq<nat>,
    second_value: nat,
    second_priors: Seq<nat>,
)
    requires
        search.awaited.is_some(),
        priors.len() == legal_moves(node_at(search.root, search.awaited->0).state).len(),
    ensures
        evaluated(search, value, priors).awaited.is_none(),
        evaluated(evaluated(search, value, priors), second_value, second_priors) == evaluated(
            search,
            value,
            priors,
        ),
{
}

/// Playing a move keeps the subtree below it: the new tree is that subtree, with as
/// many nodes as it had and with every visit and every score it had gathered, and the
/// search is well-formed again.
pub proof fn lemma_advance_keeps_subtree<G: Game>(search: SearchView<G>, index: int)
    requires
        search_well_formed(search),
        search.root.expansion.is_some(),
        0 <= index < children_of(search.root).len(),
    ensures
        advanced(search, index).root == children_of(search.root)[index].node,
        node_count(advanced(search, index).root) == node_count(
            children_of(search.root)[index].node,
        ),
        node_visits(advanced(search, index).root) <= children_of(search.root)[index].visits,
        search_well_formed(advanced(search, index)),
{
    let children = children_of(search.root);
    assert(edge_well_formed(search.root.state, index, children[index]));
    lemma_sum_visits_bounds_each(children, index);
}

/// What a game promises of a position: a finished position has a score between zero
/// and one, and an unfinished one has a move.
pub open spec fn position_valid<G: Game>(state: G) -> bool {
    match state.outcome() {
        Some(score) => score.in_range(),
        None => legal_moves(state).len() > 0,
    }
}

/// A simulation leaves a well-formed search well-formed. Where it ends without
/// waiting, it has added one visit below the root, unless it ended at the root
/// itself.
pub proof fn lemma_simulated_well_formed<G: Game>(root: NodeView<G>, c_puct: nat)
    requires
        well_formed(root),
        node_visits(root) < usize::MAX,
        position_valid(node_at(root, selected_path(root, c_puct)).state),
    ensures
        search_well_formed(simulated(root, c_puct)),
        simulated(root, c_puct).root.state == root.state,
        simulated(root, c_puct).awaited.is_none() ==> node_visits(simulated(root, c_puct).root)
            == node_visits(root) + if selected_path(root, c_puct).len() > 0 {
            1nat
        } else {
            0nat
        },
{
    let path = selected_path(root, c_puct);
    let leaf = node_at(root, path);
    lemma_selected_path_valid(root, c_puct);
    lemma_node_at_well_formed(root, path);
    match leaf.expansion {
        Some(expansion) => {
            lemma_settled_well_formed(root, path, None, expansion.value);
        },
        None => match leaf.state.outcome() {
            Some(score) => {
                lemma_terminal_expansion_fits(leaf.state, score);
                lemma_settled_well_formed(
                    root,
                    path,
                    Some(terminal_expansion(score.value())),
                    score.value(),
                );
            },
            None => {},
        },
    }
}

/// Taking an evaluation leaves a well-formed search well-formed, where the value
/// and the priors lie between zero and one.
pub proof fn lemma_evaluated_well_formed<G: Game>(
    search: SearchView<G>,
    value: nat,
    priors: Seq<nat>,
)
    requires
        search_well_formed(search),
        value <= SCORE_ONE,
        forall|i: int| 0 <= i < priors.len() ==> #[trigger] priors[i] <= SCORE_ONE,
    ensures
        search_well_formed(evaluated(search, value, priors)),
        evaluated(search, value, priors).root.state == search.root.state,
{
    match search.awaited {
        None => {},
        Some(path) => {
            let state = node_at(search.root, path).state;
            if priors.len() == legal_moves(state).len() {
                lemma_evaluated_expansion_fits(state, value, priors);
                lemma_settled_well_formed(
                    search.root,
                    path,
                    Some(evaluated_expansion(state, value, priors)),
                    value,
                );
            }
        },
    }
}

/// The policy of a well-formed tree has one entry for each legal move of the root,
/// unless the game is over there, and no entry is larger than the total.
pub proof fn lemma_policy_shape<G: Game>(root: NodeView<G>, index: int)
    requires
        well_formed(root),
        descends(root),
        0 <= index < children_of(root).len(),
    ensures
        children_of(root).len() == legal_moves(root.state).len(),
        children_of(root)[index].visits <= node_visits(root),
{
    lemma_sum_visits_bounds_each(children_of(root), index);
}

/// Every run of simulations leaves a well-formed search well-formed, whatever the
/// game, as long as the game keeps its promises of every position. The run ends
/// early only where the search waits, and below the root there is at most one more
/// visit for each simulation that ended.
pub proof fn lemma_simulations_well_formed<G: Game>(
    search: SearchView<G>,
    samples: nat,
    c_puct: nat,
)
    requires
        search_well_formed(search),
        node_visits(search.root) + samples <= usize::MAX,
        forall|state: G| position_valid(state),
    ensures
        search_well_formed(simulations(search, samples, c_puct).0),
        simulations(search, samples, c_puct).0.root.state == search.root.state,
        simulations(search, samples, c_puct).1 <= samples,
        simulations(search, samples, c_puct).1 > 0 ==> simulations(
            search,
            samples,
            c_puct,
        ).0.awaited.is_some(),
        node_visits(simulations(search, samples, c_puct).0.root) + simulations(
            search,
            samples,
            c_puct,
        ).1 <= node_visits(search.root) + samples,
    decreases samples,
{
    if samples > 0 && search.awaited.is_none() {
        let next = simulated(search.root, c_puct);
        assert(position_valid(node_at(search.root, selected_path(search.root, c_puct)).state));
        lemma_simulated_well_formed(search.root, c_puct);
        if next.awaited.is_none() {
            lemma_simulations_well_formed(next, (samples - 1) as nat, c_puct);
        }
    }
}

} // verus!

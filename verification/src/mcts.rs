//! Monte-Carlo tree search, step by step.
//!
//! The search keeps its tree in an arena and is driven from outside: it
//! asks its caller to choose among the children of a node, and hands the
//! caller the outcome of each rollout. How children are rated and how
//! outcomes are valued is the caller's business; the tree, the expansion,
//! the rollouts and the visit counts are kept here.

use crate::board::{GameState, Player};
use crate::proofs::{
    generated_ok, lemma_generated_moves, lemma_generated_playable, lemma_make_move_wf,
};
use crate::rules::{
    generate_legal_moves, generate_moves, make_move, opponent_of, spec_generate_legal_moves,
    spec_generate_moves, spec_make_move, spec_opponent_of, Move,
};
use crate::search::{evaluate, has_king, lemma_legal_moves_ok, spec_evaluate, spec_has_king};
use vstd::prelude::*;

verus! {

/// The number of iterations of a search with the usual budget.
pub const MCTS_ITERATIONS: u32 = 20_000;

/// The number of plies that a rollout plays at most.
pub const MCTS_ROLLOUT_DEPTH: u32 = 10;

/// One step of the xorshift generator on 64 bits.
pub open spec fn xorshift(s: u64) -> u64 {
    let a = s ^ (s << 13);
    let b = a ^ (a >> 7);
    b ^ (b << 17)
}

/// A step of the generator never leads from a state other than zero to
/// zero.
pub proof fn lemma_xorshift_nonzero(s: u64)
    requires
        s != 0,
    ensures
        xorshift(s) != 0,
{
    let a = s ^ (s << 13);
    let b = a ^ (a >> 7);
    assert(s != 0 ==> s ^ (s << 13) != 0) by (bit_vector);
    assert(a != 0 ==> a ^ (a >> 7) != 0) by (bit_vector);
    assert(b != 0 ==> b ^ (b << 17) != 0) by (bit_vector);
}

/// A xorshift generator of pseudo-random numbers.
#[derive(Debug, Clone, Copy)]
pub struct Rng {
    pub state: u64,
}

impl Rng {
    /// The generator never reaches the state zero, from which it would not
    /// leave.
    pub open spec fn wf(self) -> bool {
        self.state != 0
    }

    /// A generator that starts from `seed`, made odd.
    pub fn new(seed: u64) -> (rng: Rng)
        ensures
            rng.state == seed | 1,
            rng.wf(),
    {
        assert(seed | 1 != 0) by (bit_vector);
        Rng { state: seed | 1 }
    }

    /// The next number: one step of xorshift, which is also the new state.
    pub fn next(&mut self) -> (value: u64)
        ensures
            value == xorshift(old(self).state),
            final(self).state == value,
            old(self).wf() ==> final(self).wf(),
    {
        proof {
            if self.state != 0 {
                lemma_xorshift_nonzero(self.state);
            }
        }
        self.state ^= self.state << 13;
        self.state ^= self.state >> 7;
        self.state ^= self.state << 17;
        self.state
    }

    /// The next number, brought below `max`.
    pub fn range(&mut self, max: usize) -> (index: usize)
        requires
            max > 0,
        ensures
            index == xorshift(old(self).state) % (max as u64),
            index < max,
            final(self).state == xorshift(old(self).state),
            old(self).wf() ==> final(self).wf(),
    {
        (self.next() % (max as u64)) as usize
    }
}

/// How a rollout ended, seen from the first player.
#[derive(Debug, Clone, Copy, PartialEq, Eq, Structural)]
pub enum Rollout {
    /// The first player has lost its king or cannot move.
    SenteLoss,
    /// The second player has lost its king or cannot move.
    SenteWin,
    /// Neither: the static score of the position that was reached.
    Score(i32),
}

/// The outcome of a rollout of at most `plies` plies from `state` with
/// `player` to move, and the state in which it leaves the generator that
/// started in `rng`. Each ply makes one of the generated moves, the one at
/// the index that the generator gives.
pub open spec fn spec_simulate(state: GameState, player: Player, rng: u64, plies: nat) -> (
    Rollout,
    u64,
)
    decreases plies,
{
    if plies == 0 {
        (Rollout::Score(spec_evaluate(state) as i32), rng)
    } else if !spec_has_king(state, Player::Sente) {
        (Rollout::SenteLoss, rng)
    } else if !spec_has_king(state, Player::Gote) {
        (Rollout::SenteWin, rng)
    } else {
        let moves = spec_generate_moves(state, player);
        if moves.len() == 0 {
            (
                if player == Player::Sente {
                    Rollout::SenteLoss
                } else {
                    Rollout::SenteWin
                },
                rng,
            )
        } else {
            let next = xorshift(rng);
            let mv = moves[(next % (moves.len() as u64)) as int];
            spec_simulate(
                spec_make_move(state, mv, player),
                spec_opponent_of(player),
                next,
                (plies - 1) as nat,
            )
        }
    }
}

/// Plays a rollout from `state` with `starting_player` to move.
pub fn simulate(state: &GameState, starting_player: Player, rng: &mut Rng) -> (outcome: Rollout)
    requires
        state.wf(),
    ensures
        (outcome, final(rng).state) == spec_simulate(
            *state,
            starting_player,
            old(rng).state,
            MCTS_ROLLOUT_DEPTH as nat,
        ),
        old(rng).wf() ==> final(rng).wf(),
{
    let mut current_state = *state;
    let mut current_player = starting_player;
    let ghost target = spec_simulate(
        *state,
        starting_player,
        old(rng).state,
        MCTS_ROLLOUT_DEPTH as nat,
    );

    let mut ply: u32 = 0;
    while ply < MCTS_ROLLOUT_DEPTH
        invariant
            ply <= MCTS_ROLLOUT_DEPTH,
            current_state.wf(),
            target == spec_simulate(
                *state,
                starting_player,
                old(rng).state,
                MCTS_ROLLOUT_DEPTH as nat,
            ),
            old(rng).wf() ==> rng.wf(),
            spec_simulate(
                current_state,
                current_player,
                rng.state,
                (MCTS_ROLLOUT_DEPTH - ply) as nat,
            ) == target,
        decreases MCTS_ROLLOUT_DEPTH - ply,
    {
        if !has_king(&current_state, Player::Sente) {
            return Rollout::SenteLoss;
        }
        if !has_king(&current_state, Player::Gote) {
            return Rollout::SenteWin;
        }
        let moves = generate_moves(&current_state, current_player);
        if moves.len() == 0 {
            return if current_player == Player::Sente {
                Rollout::SenteLoss
            } else {
                Rollout::SenteWin
            };
        }
        let idx = rng.range(moves.len());
        let mv = moves[idx];
        proof {
            lemma_generated_moves(current_state, current_player);
            lemma_generated_playable(current_state, current_player, mv);
            lemma_make_move_wf(current_state, current_player, mv);
        }
        current_state = make_move(&current_state, mv, current_player);
        current_player = opponent_of(current_player);
        ply += 1;
    }

    Rollout::Score(evaluate(&current_state))
}

/// A node of the search tree: the move that led to it (none at the root),
/// the player to move, the position, how often the search went through it,
/// its children by their index in the tree, and the legal moves that have
/// no child yet.
#[derive(Debug)]
pub struct MctsNode {
    pub mv: Option<Move>,
    pub player: Player,
    pub state: GameState,
    pub visits: u32,
    pub children: Vec<usize>,
    pub untried_moves: Vec<Move>,
}

/// What a node holds, as plain values.
pub struct NodeModel {
    pub mv: Option<Move>,
    pub player: Player,
    pub state: GameState,
    pub visits: u32,
    pub children: Seq<usize>,
    pub untried_moves: Seq<Move>,
}

impl View for MctsNode {
    type V = NodeModel;

    open spec fn view(&self) -> NodeModel {
        NodeModel {
            mv: self.mv,
            player: self.player,
            state: self.state,
            visits: self.visits,
            children: self.children@,
            untried_moves: self.untried_moves@,
        }
    }
}

impl NodeModel {
    /// The legal moves of the player to move.
    pub open spec fn legal(self) -> Seq<Move> {
        spec_generate_legal_moves(self.state, self.player)
    }

    /// A king has left the board.
    pub open spec fn king_missing(self) -> bool {
        !spec_has_king(self.state, Player::Sente) || !spec_has_king(self.state, Player::Gote)
    }

    /// Every legal move has its child.
    pub open spec fn is_fully_expanded(self) -> bool {
        self.untried_moves.len() == 0
    }

    /// A king is missing, or there is no move to try and no child.
    pub open spec fn is_terminal(self) -> bool {
        self.king_missing() || (self.untried_moves.len() == 0 && self.children.len() == 0)
    }

    /// The position is well-formed, and the untried moves are the legal
    /// moves without the last ones, one for each child.
    pub open spec fn wf(self) -> bool {
        &&& self.state.wf()
        &&& self.children.len() + self.untried_moves.len() == self.legal().len()
        &&& self.untried_moves == self.legal().take(self.untried_moves.len() as int)
    }
}

/// The node for a position that the search has not gone through yet.
pub open spec fn fresh_node(state: GameState, player: Player, mv: Option<Move>) -> NodeModel {
    NodeModel {
        mv,
        player,
        state,
        visits: 0,
        children: Seq::empty(),
        untried_moves: spec_generate_legal_moves(state, player),
    }
}

impl MctsNode {
    /// The node for `state` with `player` to move, reached by `mv`: without
    /// visits or children, and with every legal move untried.
    pub fn new(state: GameState, player: Player, mv: Option<Move>) -> (node: Self)
        requires
            state.wf(),
        ensures
            node@ == fresh_node(state, player, mv),
            node@.wf(),
    {
        let untried_moves = generate_legal_moves(&state, player);
        let node = Self { mv, player, state, visits: 0, children: Vec::new(), untried_moves };
        assert(node@.legal().take(node@.legal().len() as int) =~= node@.legal());
        assert(node@.children =~= Seq::empty());
        node
    }

    /// Whether every legal move has its child.
    pub fn is_fully_expanded(&self) -> (full: bool)
        ensures
            full == self@.is_fully_expanded(),
    {
        self.untried_moves.len() == 0
    }

    /// Whether a king is missing, or there is no move to try and no child.
    pub fn is_terminal(&self) -> (terminal: bool)
        ensures
            terminal == self@.is_terminal(),
    {
        !has_king(&self.state, Player::Sente) || !has_king(&self.state, Player::Gote) || (
        self.untried_moves.len() == 0 && self.children.len() == 0)
    }
}

/// What the search asks of its caller.
#[derive(Debug, Clone, Copy, PartialEq, Eq, Structural)]
pub enum MctsRequest {
    /// Choose one of the children of the node `parent` and descend to it.
    Choose { parent: usize },
    /// An iteration has ended with `outcome`: credit it to the nodes on the
    /// path, then begin the next iteration.
    Credit { outcome: Rollout },
    /// The budget is spent, and `best` is the move that the search chooses.
    Done { best: Option<Move> },
}

/// The nodes with one more visit for each of the first `k` nodes on `path`.
pub open spec fn bumped(nodes: Seq<NodeModel>, path: Seq<usize>, k: nat) -> Seq<NodeModel>
    decreases k,
{
    if k == 0 {
        nodes
    } else {
        let before = bumped(nodes, path, (k - 1) as nat);
        let i = path[k - 1] as int;
        before.update(i, NodeModel { visits: (before[i].visits + 1) as u32, ..before[i] })
    }
}

/// The place of the last child of the root among those that the search
/// went through most often, looking at the first `n` children; 0 where
/// there is none.
pub open spec fn most_visited(nodes: Seq<NodeModel>, n: nat) -> nat
    decreases n,
{
    if n == 0 {
        0
    } else if n == 1 {
        0
    } else {
        let before = most_visited(nodes, (n - 1) as nat);
        let children = nodes[0].children;
        if nodes[children[n - 1] as int].visits >= nodes[children[before as int] as int].visits {
            (n - 1) as nat
        } else {
            before
        }
    }
}

/// The state of a search, as plain values: the tree, the path of the
/// iteration under way from the root to the node it has reached, the state
/// of the generator, and the iterations granted and left.
pub struct SearchModel {
    pub nodes: Seq<NodeModel>,
    pub path: Seq<usize>,
    pub rng: u64,
    pub budget: u32,
    pub remaining: u32,
}

impl SearchModel {
    /// The node that the iteration under way has reached.
    pub open spec fn cursor(self) -> usize {
        self.path.last()
    }

    /// The `j`-th child of the node `parent` lies behind it in the tree and
    /// holds the position after the legal move it stands for: the last
    /// legal move for the first child, the one before for the second, and
    /// so on.
    pub open spec fn child_ok(self, parent: int, j: int) -> bool {
        let p = self.nodes[parent];
        let c = p.children[j];
        let mv = p.legal()[p.legal().len() - 1 - j];
        &&& parent < c < self.nodes.len()
        &&& self.nodes[c as int].mv == Some(mv)
        &&& self.nodes[c as int].state == spec_make_move(p.state, mv, p.player)
        &&& self.nodes[c as int].player == spec_opponent_of(p.player)
    }

    /// The tree and the path are sound: the root stands first and has no
    /// move, every other node has one, every node and every child is as it
    /// should be, and the path starts at the root and leads on through the
    /// tree.
    pub open spec fn structure(self) -> bool {
        &&& self.nodes.len() >= 1
        &&& self.nodes[0].mv is None
        &&& forall|i: int| 0 <= i < self.nodes.len() ==> (#[trigger] self.nodes[i]).wf()
        &&& forall|i: int| 0 < i < self.nodes.len() ==> (#[trigger] self.nodes[i]).mv is Some
        &&& forall|i: int, j: int|
            0 <= i < self.nodes.len() && 0 <= j < self.nodes[i].children.len()
                ==> #[trigger] self.child_ok(i, j)
        &&& self.path.len() >= 1
        &&& self.path[0] == 0
        &&& forall|k: int| 0 <= k < self.path.len() ==> (#[trigger] self.path[k]) < self.nodes.len()
        &&& forall|a: int, b: int|
            0 <= a < b < self.path.len() ==> (#[trigger] self.path[a]) < (#[trigger] self.path[b])
        &&& self.nodes.len() > 1 ==> self.nodes[0].children.len() > 0
        &&& self.nodes[0].king_missing() ==> self.nodes.len() == 1
        &&& self.rng != 0
    }

    /// The counts agree with the iterations that have ended: no node has
    /// more visits than that, the tree has grown only if one has ended, and
    /// once one has ended the root has a child wherever it has a legal move
    /// and both kings.
    pub open spec fn progress(self) -> bool {
        &&& self.remaining <= self.budget
        &&& forall|i: int|
            0 <= i < self.nodes.len() ==> (#[trigger] self.nodes[i]).visits <= self.budget
                - self.remaining
        &&& self.nodes[0].visits == self.budget - self.remaining
        &&& self.remaining == self.budget ==> self.nodes.len() == 1
        &&& self.remaining < self.budget && self.nodes[0].legal().len() > 0
            && !self.nodes[0].king_missing() ==> self.nodes[0].children.len() > 0
    }

    /// The tree and the path are sound, and the counts agree with the
    /// iterations that have ended.
    pub open spec fn wf(self) -> bool {
        self.structure() && self.progress()
    }

    /// The search before its first iteration.
    pub open spec fn initial(state: GameState, player: Player, seed: u64, iterations: u32) -> Self {
        SearchModel {
            nodes: seq![fresh_node(state, player, None)],
            path: seq![0usize],
            rng: seed | 1,
            budget: iterations,
            remaining: iterations,
        }
    }

    /// Whether the node reached has an untried move and may be given a
    /// child.
    pub open spec fn can_expand(self) -> bool {
        let node = self.nodes[self.cursor() as int];
        !node.is_fully_expanded() && !node.is_terminal()
    }

    /// Whether the caller has to choose among the children of the node
    /// reached.
    pub open spec fn wants_choice(self) -> bool {
        let node = self.nodes[self.cursor() as int];
        node.is_fully_expanded() && node.children.len() > 0 && !node.is_terminal()
    }

    /// The search after the node reached has been given a child for its last
    /// untried move, and the iteration has gone on to that child.
    pub open spec fn expanded(self) -> Self {
        let c = self.cursor() as int;
        let node = self.nodes[c];
        let mv = node.untried_moves.last();
        let child = fresh_node(
            spec_make_move(node.state, mv, node.player),
            spec_opponent_of(node.player),
            Some(mv),
        );
        let index = self.nodes.len() as usize;
        SearchModel {
            nodes: self.nodes.update(
                c,
                NodeModel {
                    untried_moves: node.untried_moves.drop_last(),
                    children: node.children.push(index),
                    ..node
                },
            ).push(child),
            path: self.path.push(index),
            ..self
        }
    }

    /// The search after an iteration has ended at the node reached: the
    /// node is given a child where it may, a rollout is played from where
    /// the iteration then stands, every node on the path has one more
    /// visit, and one iteration fewer is left.
    pub open spec fn rolled_out(self) -> (Self, MctsRequest) {
        let grown = if self.can_expand() {
            self.expanded()
        } else {
            self
        };
        let leaf = grown.nodes[grown.cursor() as int];
        let played = spec_simulate(leaf.state, leaf.player, grown.rng, MCTS_ROLLOUT_DEPTH as nat);
        (
            SearchModel {
                nodes: bumped(grown.nodes, grown.path, grown.path.len()),
                rng: played.1,
                remaining: (self.remaining - 1) as u32,
                ..grown
            },
            MctsRequest::Credit { outcome: played.0 },
        )
    }

    /// The move of the root's child that the search went through most often;
    /// none where the root has no child. Where several children share the
    /// highest count it is the last of them, whose move comes first among
    /// the legal moves.
    pub open spec fn best_move(self) -> Option<Move> {
        let children = self.nodes[0].children;
        if children.len() == 0 {
            None
        } else {
            self.nodes[children[most_visited(self.nodes, children.len()) as int] as int].mv
        }
    }

    /// Where the search stands once the iteration has reached a node: it
    /// asks for a choice among the children of a node that has a child for
    /// every legal move, and ends the iteration at any other node.
    pub open spec fn settled(self) -> (Self, MctsRequest) {
        if self.wants_choice() {
            (self, MctsRequest::Choose { parent: self.cursor() })
        } else {
            self.rolled_out()
        }
    }

    /// The search after the caller has begun an iteration: it is done where
    /// no iteration is left, and starts again from the root otherwise.
    pub open spec fn begun(self) -> (Self, MctsRequest) {
        if self.remaining == 0 {
            (self, MctsRequest::Done { best: self.best_move() })
        } else {
            (SearchModel { path: seq![0usize], ..self }).settled()
        }
    }

    /// The search after the caller has chosen the child at `child` among the
    /// children of the node reached: the iteration goes on to that child. A
    /// choice that names no child ends the iteration at the node reached.
    pub open spec fn descended(self, child: usize) -> (Self, MctsRequest) {
        if self.remaining == 0 {
            (self, MctsRequest::Done { best: self.best_move() })
        } else if child < self.nodes[self.cursor() as int].children.len() {
            (SearchModel {
                path: self.path.push(self.nodes[self.cursor() as int].children[child as int]),
                ..self
            }).settled()
        } else {
            self.rolled_out()
        }
    }
}

/// Counting visits changes the visit counts alone: by one for each of the
/// first `k` nodes on the path, and not at all for the others.
pub proof fn lemma_bumped(nodes: Seq<NodeModel>, path: Seq<usize>, k: nat)
    requires
        k <= path.len(),
        forall|j: int| 0 <= j < path.len() ==> (#[trigger] path[j]) < nodes.len(),
        forall|a: int, b: int|
            0 <= a < b < path.len() ==> (#[trigger] path[a]) < (#[trigger] path[b]),
        forall|i: int| 0 <= i < nodes.len() ==> (#[trigger] nodes[i]).visits < u32::MAX,
    ensures
        bumped(nodes, path, k).len() == nodes.len(),
        forall|i: int|
            0 <= i < nodes.len() ==> #[trigger] bumped(nodes, path, k)[i] == (NodeModel {
                visits: bumped(nodes, path, k)[i].visits,
                ..nodes[i]
            }),
        forall|j: int|
            0 <= j < k ==> bumped(nodes, path, k)[#[trigger] path[j] as int].visits
                == nodes[path[j] as int].visits + 1,
        forall|i: int|
            0 <= i < nodes.len() && (forall|j: int| 0 <= j < k ==> path[j] != i) ==> (
            #[trigger] bumped(nodes, path, k)[i]).visits == nodes[i].visits,
        forall|i: int|
            0 <= i < nodes.len() ==> nodes[i].visits <= (#[trigger] bumped(
                nodes,
                path,
                k,
            )[i]).visits <= nodes[i].visits + 1,
    decreases k,
{
    if k > 0 {
        lemma_bumped(nodes, path, (k - 1) as nat);
        let before = bumped(nodes, path, (k - 1) as nat);
        let after = bumped(nodes, path, k);
        let i = path[k - 1] as int;
        assert(forall|j: int| 0 <= j < k - 1 ==> path[j] != i);
        assert(before[i].visits == nodes[i].visits);
        assert forall|j: int| 0 <= j < k implies after[#[trigger] path[j] as int].visits
            == nodes[path[j] as int].visits + 1 by {
            if j < k - 1 {
                assert(path[j] < path[k - 1]);
            }
        }
    }
}

/// Whether the tree and the path are sound depends on the nodes, the path
/// and the generator alone.
pub proof fn lemma_structure_frame(a: SearchModel, b: SearchModel)
    requires
        a.structure(),
        b.nodes == a.nodes,
        b.path == a.path,
        b.rng != 0,
    ensures
        b.structure(),
{
    assert forall|i: int, j: int|
        0 <= i < b.nodes.len() && 0 <= j < b.nodes[i].children.len() implies #[trigger] b.child_ok(
        i,
        j,
    ) by {
        assert(a.child_ok(i, j));
    }
}

/// A search is well-formed before its first iteration.
pub proof fn lemma_initial_wf(state: GameState, player: Player, seed: u64, iterations: u32)
    requires
        state.wf(),
    ensures
        SearchModel::initial(state, player, seed, iterations).wf(),
{
    let m = SearchModel::initial(state, player, seed, iterations);
    let root = fresh_node(state, player, None);
    assert(seed | 1 != 0) by (bit_vector);
    assert(root.legal().take(root.legal().len() as int) =~= root.legal());
    assert(m.nodes[0] == root);
}

/// The last untried move of a well-formed node is a sound move, and leads
/// to a well-formed position.
pub proof fn lemma_untried_move(node: NodeModel)
    requires
        node.wf(),
        node.untried_moves.len() > 0,
    ensures
        node.untried_moves.last() == node.legal()[node.untried_moves.len() - 1],
        generated_ok(node.state, node.player, node.untried_moves.last()),
        spec_make_move(node.state, node.untried_moves.last(), node.player).wf(),
{
    let mv = node.untried_moves.last();
    lemma_legal_moves_ok(node.state, node.player);
    assert(mv == node.legal()[node.untried_moves.len() - 1]);
    lemma_make_move_wf(node.state, node.player, mv);
}

/// Giving the node reached a child keeps the tree and the path sound.
pub proof fn lemma_expanded_structure(m: SearchModel)
    requires
        m.structure(),
        m.can_expand(),
        m.nodes.len() <= usize::MAX,
    ensures
        m.expanded().structure(),
        m.expanded().nodes.len() == m.nodes.len() + 1,
        m.expanded().cursor() == m.nodes.len(),
        forall|i: int|
            0 <= i < m.nodes.len() ==> (#[trigger] m.expanded().nodes[i]).visits
                == m.nodes[i].visits,
        m.expanded().nodes[m.nodes.len() as int].visits == 0,
        m.expanded().nodes[0].legal() == m.nodes[0].legal(),
        m.expanded().nodes[0].king_missing() == m.nodes[0].king_missing(),
{
    let c = m.cursor() as int;
    let node = m.nodes[c];
    let mv = node.untried_moves.last();
    let index = m.nodes.len() as usize;
    let e = m.expanded();
    let grown = NodeModel {
        untried_moves: node.untried_moves.drop_last(),
        children: node.children.push(index),
        ..node
    };
    let child = fresh_node(
        spec_make_move(node.state, mv, node.player),
        spec_opponent_of(node.player),
        Some(mv),
    );
    assert(m.path[m.path.len() - 1] < m.nodes.len());
    assert(node.wf());
    lemma_untried_move(node);
    assert(e.nodes.len() == m.nodes.len() + 1);
    assert(e.nodes[c] == grown);
    assert(e.nodes[index as int] == child);
    assert forall|i: int| 0 <= i < m.nodes.len() && i != c implies #[trigger] e.nodes[i]
        == m.nodes[i] by {}
    assert(grown.wf()) by {
        assert(grown.legal() == node.legal());
        assert(grown.untried_moves =~= grown.legal().take(grown.untried_moves.len() as int));
    }
    assert(child.wf()) by {
        assert(child.legal().take(child.legal().len() as int) =~= child.legal());
    }
    assert forall|i: int| 0 <= i < e.nodes.len() implies (#[trigger] e.nodes[i]).wf() by {
        if i != c && i != index {
            assert(m.nodes[i].wf());
        }
    }
    assert forall|i: int| 0 < i < e.nodes.len() implies (#[trigger] e.nodes[i]).mv is Some by {
        if i != c && i != index {
            assert(m.nodes[i].mv is Some);
        } else if i == c {
            assert(m.nodes[i].mv is Some);
        }
    }
    assert forall|i: int, j: int|
        0 <= i < e.nodes.len() && 0 <= j < e.nodes[i].children.len() implies #[trigger] e.child_ok(
        i,
        j,
    ) by {
        if i == index {
        } else if i == c && j == node.children.len() {
            assert(e.nodes[i].children[j] == index);
        } else {
            assert(m.child_ok(i, j));
            assert(e.nodes[i].children[j] == m.nodes[i].children[j]);
            let t = m.nodes[i].children[j] as int;
            assert(e.nodes[t].mv == m.nodes[t].mv);
            assert(e.nodes[t].state == m.nodes[t].state);
            assert(e.nodes[t].player == m.nodes[t].player);
            assert(e.nodes[i].legal() == m.nodes[i].legal());
        }
    }
    assert forall|k: int| 0 <= k < e.path.len() implies (#[trigger] e.path[k]) < e.nodes.len() by {
        if k < m.path.len() {
            assert(m.path[k] < m.nodes.len());
        }
    }
    assert forall|a: int, b: int| 0 <= a < b < e.path.len() implies (#[trigger] e.path[a]) < (
    #[trigger] e.path[b]) by {
        assert(m.path[a] < m.nodes.len());
    }
    assert(e.nodes[0].children.len() > 0) by {
        if c != 0 {
            assert(m.nodes.len() > 1);
        }
    }
}

/// Going on to a child of the node reached keeps the tree and the path
/// sound.
pub proof fn lemma_descended_structure(m: SearchModel, child: usize)
    requires
        m.structure(),
        child < m.nodes[m.cursor() as int].children.len(),
    ensures
        (SearchModel {
            path: m.path.push(m.nodes[m.cursor() as int].children[child as int]),
            ..m
        }).structure(),
{
    let c = m.cursor() as int;
    let target = m.nodes[c].children[child as int];
    let d = SearchModel { path: m.path.push(target), ..m };
    assert(m.path[m.path.len() - 1] < m.nodes.len());
    assert(m.child_ok(c, child as int));
    assert(d.path[0] == m.path[0]);
    assert forall|i: int, j: int|
        0 <= i < d.nodes.len() && 0 <= j < d.nodes[i].children.len() implies #[trigger] d.child_ok(
        i,
        j,
    ) by {
        assert(m.child_ok(i, j));
    }
    assert forall|k: int| 0 <= k < d.path.len() implies (#[trigger] d.path[k]) < d.nodes.len() by {
        if k < m.path.len() {
            assert(m.path[k] < m.nodes.len());
        }
    }
    assert forall|a: int, b: int| 0 <= a < b < d.path.len() implies (#[trigger] d.path[a]) < (
    #[trigger] d.path[b]) by {
        if b == m.path.len() {
            if a < m.path.len() - 1 {
                assert(m.path[a] < m.path[m.path.len() - 1]);
            }
        } else {
            assert(m.path[a] < m.path[b]);
        }
    }
}

/// Counting the visits of an iteration keeps the tree and the path sound.
pub proof fn lemma_bumped_structure(m: SearchModel)
    requires
        m.structure(),
        forall|i: int| 0 <= i < m.nodes.len() ==> (#[trigger] m.nodes[i]).visits < u32::MAX,
    ensures
        (SearchModel { nodes: bumped(m.nodes, m.path, m.path.len()), ..m }).structure(),
{
    let b = SearchModel { nodes: bumped(m.nodes, m.path, m.path.len()), ..m };
    lemma_bumped(m.nodes, m.path, m.path.len());
    assert forall|i: int| 0 <= i < b.nodes.len() implies (#[trigger] b.nodes[i]).wf() by {
        assert(m.nodes[i].wf());
        assert(b.nodes[i].legal() == m.nodes[i].legal());
    }
    assert forall|i: int| 0 < i < b.nodes.len() implies (#[trigger] b.nodes[i]).mv is Some by {
        assert(m.nodes[i].mv is Some);
    }
    assert forall|i: int, j: int|
        0 <= i < b.nodes.len() && 0 <= j < b.nodes[i].children.len() implies #[trigger] b.child_ok(
        i,
        j,
    ) by {
        assert(m.child_ok(i, j));
        let t = m.nodes[i].children[j] as int;
        assert(b.nodes[t] == (NodeModel { visits: b.nodes[t].visits, ..m.nodes[t] }));
        assert(b.nodes[i].legal() == m.nodes[i].legal());
    }
    assert(b.nodes[0] == (NodeModel { visits: b.nodes[0].visits, ..m.nodes[0] }));
}

/// Ending an iteration keeps the search well-formed.
pub proof fn lemma_rolled_out_wf(m: SearchModel)
    requires
        m.wf(),
        m.remaining > 0,
        m.nodes.len() <= usize::MAX,
    ensures
        m.rolled_out().0.wf(),
        m.rolled_out().0.remaining == m.remaining - 1,
        m.rolled_out().0.budget == m.budget,
        m.rolled_out().0.nodes[0].state == m.nodes[0].state,
        m.rolled_out().0.nodes[0].player == m.nodes[0].player,
{
    let grown = if m.can_expand() {
        m.expanded()
    } else {
        m
    };
    let r = m.rolled_out().0;
    assert(m.path[m.path.len() - 1] < m.nodes.len());
    if m.can_expand() {
        lemma_expanded_structure(m);
    }
    assert forall|i: int| 0 <= i < grown.nodes.len() implies (#[trigger] grown.nodes[i]).visits
        <= m.budget - m.remaining by {
        if i < m.nodes.len() {
            assert(m.nodes[i].visits <= m.budget - m.remaining);
        }
    }
    lemma_bumped(grown.nodes, grown.path, grown.path.len());
    lemma_bumped_structure(grown);
    let leaf = grown.nodes[grown.cursor() as int];
    let played = spec_simulate(leaf.state, leaf.player, grown.rng, MCTS_ROLLOUT_DEPTH as nat);
    lemma_simulate_rng(leaf.state, leaf.player, grown.rng, MCTS_ROLLOUT_DEPTH as nat);
    assert(r.structure()) by {
        let b = SearchModel { nodes: bumped(grown.nodes, grown.path, grown.path.len()), ..grown };
        assert(b.structure());
        assert(r.nodes == b.nodes);
        assert(r.path == b.path);
        assert forall|i: int, j: int|
            0 <= i < r.nodes.len() && 0 <= j < r.nodes[i].children.len()
            implies #[trigger] r.child_ok(i, j) by {
            assert(b.child_ok(i, j));
        }
    }
    assert(r.nodes[0] == (NodeModel { visits: r.nodes[0].visits, ..grown.nodes[0] }));
    assert(r.progress()) by {
        assert forall|i: int| 0 <= i < r.nodes.len() implies (#[trigger] r.nodes[i]).visits
            <= r.budget - r.remaining by {
            assert(grown.nodes[i].visits <= m.budget - m.remaining);
        }
        if r.nodes[0].legal().len() > 0 && !r.nodes[0].king_missing() {
            if grown.nodes.len() == 1 {
                assert(m.cursor() == 0);
                assert(m.nodes[0].wf());
            }
        }
    }
}

/// A rollout leaves a generator that was not in the state zero in a state
/// other than zero.
pub proof fn lemma_simulate_rng(state: GameState, player: Player, rng: u64, plies: nat)
    requires
        rng != 0,
    ensures
        spec_simulate(state, player, rng, plies).1 != 0,
    decreases plies,
{
    if plies > 0 && spec_has_king(state, Player::Sente) && spec_has_king(state, Player::Gote) {
        let moves = spec_generate_moves(state, player);
        if moves.len() > 0 {
            let next = xorshift(rng);
            lemma_xorshift_nonzero(rng);
            let mv = moves[(next % (moves.len() as u64)) as int];
            lemma_simulate_rng(
                spec_make_move(state, mv, player),
                spec_opponent_of(player),
                next,
                (plies - 1) as nat,
            );
        }
    }
}

/// Beginning an iteration keeps the search well-formed, keeps the root
/// position, the player and the budget, and spends at most one iteration.
pub proof fn lemma_begun_wf(m: SearchModel)
    requires
        m.wf(),
        m.nodes.len() <= usize::MAX,
    ensures
        m.begun().0.wf(),
        m.begun().0.budget == m.budget,
        m.begun().0.nodes[0].state == m.nodes[0].state,
        m.begun().0.nodes[0].player == m.nodes[0].player,
        m.begun().0.remaining <= m.remaining <= m.begun().0.remaining + 1,
        m.begun().1 is Done <==> m.remaining == 0,
        m.begun().1 is Credit <==> m.begun().0.remaining + 1 == m.remaining,
{
    if m.remaining > 0 {
        let restarted = SearchModel { path: seq![0usize], ..m };
        lemma_restarted_wf(m);
        if !restarted.wants_choice() {
            lemma_rolled_out_wf(restarted);
        }
    }
}

/// Starting again from the root keeps the search well-formed.
pub proof fn lemma_restarted_wf(m: SearchModel)
    requires
        m.wf(),
    ensures
        (SearchModel { path: seq![0usize], ..m }).wf(),
{
    let restarted = SearchModel { path: seq![0usize], ..m };
    assert forall|i: int, j: int|
        0 <= i < restarted.nodes.len() && 0 <= j < restarted.nodes[i].children.len()
        implies #[trigger] restarted.child_ok(i, j) by {
        assert(m.child_ok(i, j));
    }
}

/// Descending keeps the search well-formed, keeps the root position, the
/// player and the budget, and spends at most one iteration.
pub proof fn lemma_descended_wf(m: SearchModel, child: usize)
    requires
        m.wf(),
        m.nodes.len() <= usize::MAX,
    ensures
        m.descended(child).0.wf(),
        m.descended(child).0.budget == m.budget,
        m.descended(child).0.nodes[0].state == m.nodes[0].state,
        m.descended(child).0.nodes[0].player == m.nodes[0].player,
        m.descended(child).0.remaining <= m.remaining <= m.descended(child).0.remaining + 1,
        m.descended(child).1 is Done <==> m.remaining == 0,
        m.descended(child).1 is Credit <==> m.descended(child).0.remaining + 1 == m.remaining,
{
    if m.remaining > 0 {
        if child < m.nodes[m.cursor() as int].children.len() {
            let moved = SearchModel {
                path: m.path.push(m.nodes[m.cursor() as int].children[child as int]),
                ..m
            };
            lemma_descended_structure(m, child);
            if !moved.wants_choice() {
                lemma_rolled_out_wf(moved);
            }
        } else {
            lemma_rolled_out_wf(m);
        }
    }
}

/// A request for a choice leaves the tree as it is and names the node that
/// the iteration has reached; after a descent the path is one node longer.
pub proof fn law_choice_requests(m: SearchModel, child: usize)
    requires
        m.wf(),
    ensures
        m.begun().1 matches MctsRequest::Choose { parent } ==> parent == 0 && m.begun().0.nodes
            == m.nodes && m.begun().0.path == seq![0usize],
        m.descended(child).1 matches MctsRequest::Choose { parent } ==> parent == m.descended(
            child,
        ).0.cursor() && m.descended(child).0.nodes == m.nodes && m.descended(child).0.path.len()
            == m.path.len() + 1,
{
}

/// The `k`-th node of a path lies at least `k` nodes into the tree.
proof fn lemma_path_climbs(m: SearchModel, k: int)
    requires
        m.structure(),
        0 <= k < m.path.len(),
    ensures
        m.path[k] >= k,
    decreases k,
{
    if k > 0 {
        lemma_path_climbs(m, k - 1);
        assert(m.path[k - 1] < m.path[k]);
    }
}

/// A path is never longer than the tree has nodes, so that no iteration
/// asks for more choices than that.
pub proof fn law_path_is_bounded(m: SearchModel)
    requires
        m.wf(),
    ensures
        m.path.len() <= m.nodes.len(),
{
    let last = m.path.len() - 1;
    lemma_path_climbs(m, last);
    assert(m.path[last] < m.nodes.len());
}

/// Among the first `n` children of the root, `most_visited` names one that
/// has at least as many visits as each of them, and more than each that
/// comes after it.
pub proof fn lemma_most_visited(nodes: Seq<NodeModel>, n: nat)
    requires
        n >= 1,
    ensures
        most_visited(nodes, n) < n,
        forall|j: int|
            0 <= j < n ==> nodes[#[trigger] nodes[0].children[j] as int].visits
                <= nodes[nodes[0].children[most_visited(nodes, n) as int] as int].visits,
        forall|j: int|
            most_visited(nodes, n) < j < n ==> nodes[#[trigger] nodes[0].children[j] as int].visits
                < nodes[nodes[0].children[most_visited(nodes, n) as int] as int].visits,
    decreases n,
{
    if n > 1 {
        lemma_most_visited(nodes, (n - 1) as nat);
    }
}

/// Once the budget is spent, the search has chosen a move exactly if it
/// was granted an iteration and the root position holds both kings and
/// has a legal move; the move it has chosen is one of the legal moves of
/// the root position.
pub proof fn law_search_chooses_a_move(m: SearchModel)
    requires
        m.wf(),
        m.remaining == 0,
    ensures
        m.best_move() is Some <==> m.budget > 0 && spec_generate_legal_moves(
            m.nodes[0].state,
            m.nodes[0].player,
        ).len() > 0 && spec_has_king(m.nodes[0].state, Player::Sente) && spec_has_king(
            m.nodes[0].state,
            Player::Gote,
        ),
        m.best_move() matches Some(mv) ==> spec_generate_legal_moves(
            m.nodes[0].state,
            m.nodes[0].player,
        ).contains(mv),
{
    let root = m.nodes[0];
    let n = root.children.len();
    assert(root.wf());
    if n > 0 {
        lemma_most_visited(m.nodes, n);
        let k = most_visited(m.nodes, n) as int;
        assert(m.child_ok(0, k));
        let legal = root.legal();
        assert(legal[legal.len() - 1 - k] == m.best_move()->0);
    }
}

/// The move that the search chooses is the move of a child of the root that
/// no other child has more visits than; among the legal moves whose
/// children share the highest count it is the first.
pub proof fn law_best_move_is_most_visited(m: SearchModel)
    requires
        m.wf(),
        m.nodes[0].children.len() > 0,
    ensures
        ({
            let root = m.nodes[0];
            let chosen = most_visited(m.nodes, root.children.len()) as int;
            let most = m.nodes[root.children[chosen] as int].visits;
            &&& 0 <= chosen < root.children.len()
            &&& m.best_move() == Some(root.legal()[root.legal().len() - 1 - chosen])
            &&& forall|j: int|
                0 <= j < root.children.len() ==> m.nodes[#[trigger] root.children[j] as int].visits
                    <= most
            &&& forall|j: int|
                chosen < j < root.children.len() ==> m.nodes[#[trigger] root.children[j] as int].visits
                    < most
        }),
{
    let root = m.nodes[0];
    lemma_most_visited(m.nodes, root.children.len());
    let chosen = most_visited(m.nodes, root.children.len()) as int;
    assert(m.child_ok(0, chosen));
}

/// A search that stands at the root has gone through the root once in each
/// iteration that has ended, and through no node more often.
pub proof fn law_visits_count_iterations(m: SearchModel, i: int)
    requires
        m.wf(),
        0 <= i < m.nodes.len(),
    ensures
        m.nodes[0].visits == m.budget - m.remaining,
        m.nodes[i].visits <= m.nodes[0].visits,
{
}

/// A search under way: the tree, the path of the iteration under way, the
/// generator for the rollouts, and the iterations granted and left.
pub struct MctsSearch {
    nodes: Vec<MctsNode>,
    path: Vec<usize>,
    rng: Rng,
    budget: u32,
    remaining: u32,
}

impl View for MctsSearch {
    type V = SearchModel;

    closed spec fn view(&self) -> SearchModel {
        SearchModel {
            nodes: self.nodes@.map_values(|node: MctsNode| node@),
            path: self.path@,
            rng: self.rng.state,
            budget: self.budget,
            remaining: self.remaining,
        }
    }
}

impl MctsSearch {
    /// The search is one that `new` has made and the steps have led on.
    pub open spec fn wf(&self) -> bool {
        self@.wf()
    }

    /// A search for the move of `player` in `state`, with `iterations`
    /// iterations to spend and rollouts that follow from `seed`.
    pub fn new(state: &GameState, player: Player, seed: u64, iterations: u32) -> (search: Self)
        requires
            state.wf(),
        ensures
            search@ == SearchModel::initial(*state, player, seed, iterations),
            search.wf(),
    {
        let root = MctsNode::new(*state, player, None);
        let mut nodes: Vec<MctsNode> = Vec::new();
        nodes.push(root);
        let mut path: Vec<usize> = Vec::new();
        path.push(0);
        let search = MctsSearch {
            nodes,
            path,
            rng: Rng::new(seed),
            budget: iterations,
            remaining: iterations,
        };
        proof {
            lemma_initial_wf(*state, player, seed, iterations);
            let m = SearchModel::initial(*state, player, seed, iterations);
            assert(search@.nodes =~= m.nodes);
            assert(search@.path =~= m.path);
        }
        search
    }

    /// The number of nodes in the tree.
    pub fn node_count(&self) -> (count: usize)
        ensures
            count == self@.nodes.len(),
    {
        self.nodes.len()
    }

    /// The node at `index`; the root is the node at 0.
    pub fn node(&self, index: usize) -> (node: &MctsNode)
        requires
            index < self@.nodes.len(),
        ensures
            node@ == self@.nodes[index as int],
    {
        &self.nodes[index]
    }

    /// The nodes that the iteration under way has gone through, from the
    /// root on.
    pub fn path(&self) -> (path: &Vec<usize>)
        ensures
            path@ == self@.path,
    {
        &self.path
    }

    /// The number of iterations that are left.
    pub fn remaining(&self) -> (remaining: u32)
        ensures
            remaining == self@.remaining,
    {
        self.remaining
    }

    /// Gives the node reached a child for its last untried move, and goes on
    /// to that child.
    fn expand(&mut self)
        requires
            old(self)@.structure(),
            old(self)@.can_expand(),
        ensures
            final(self)@ == old(self)@.expanded(),
    {
        let c = self.path[self.path.len() - 1];
        let ghost model = self@;
        let ghost node = model.nodes[c as int];
        proof {
            assert(model.path[model.path.len() - 1] < model.nodes.len());
            assert(node.wf());
            lemma_untried_move(node);
            lemma_generated_playable(node.state, node.player, node.untried_moves.last());
        }
        let mv = self.nodes[c].untried_moves.pop().unwrap();
        let state = self.nodes[c].state;
        let player = self.nodes[c].player;
        let new_state = make_move(&state, mv, player);
        let next_player = opponent_of(player);
        let child = MctsNode::new(new_state, next_player, Some(mv));
        let index = self.nodes.len();
        self.nodes[c].children.push(index);
        self.nodes.push(child);
        self.path.push(index);
        proof {
            let e = model.expanded();
            assert(self@.nodes =~= e.nodes);
            assert(self@.path =~= e.path);
        }
    }

    /// Adds one visit to every node on the path.
    fn count_visits(&mut self)
        requires
            old(self)@.structure(),
            forall|i: int|
                0 <= i < old(self)@.nodes.len() ==> (#[trigger] old(self)@.nodes[i]).visits
                    < u32::MAX,
        ensures
            final(self)@ == (SearchModel {
                nodes: bumped(old(self)@.nodes, old(self)@.path, old(self)@.path.len()),
                ..old(self)@
            }),
    {
        let ghost model = self@;
        let n = self.path.len();
        let mut k: usize = 0;
        while k < n
            invariant
                k <= n,
                n == model.path.len(),
                model.structure(),
                forall|i: int|
                    0 <= i < model.nodes.len() ==> (#[trigger] model.nodes[i]).visits < u32::MAX,
                self@ == (SearchModel {
                    nodes: bumped(model.nodes, model.path, k as nat),
                    ..model
                }),
            decreases n - k,
        {
            let i = self.path[k];
            let ghost before = self@.nodes;
            proof {
                lemma_bumped(model.nodes, model.path, k as nat);
                assert(model.path[k as int] < model.nodes.len());
                assert(forall|j: int| 0 <= j < k ==> model.path[j] != i) by {
                    assert forall|j: int| 0 <= j < k implies model.path[j] != i by {
                        assert(model.path[j] < model.path[k as int]);
                    }
                }
                assert(before[i as int].visits == model.nodes[i as int].visits);
            }
            self.nodes[i].visits += 1;
            proof {
                assert(self@.nodes =~= bumped(model.nodes, model.path, (k + 1) as nat));
            }
            k += 1;
        }
    }

    /// Ends the iteration under way at the node reached.
    fn finish_iteration(&mut self) -> (request: MctsRequest)
        requires
            old(self).wf(),
            old(self)@.remaining > 0,
        ensures
            (final(self)@, request) == old(self)@.rolled_out(),
            final(self).wf(),
    {
        let ghost model = self@;
        let count = self.nodes.len();
        proof {
            assert(model.path[model.path.len() - 1] < model.nodes.len());
            assert(model.nodes.len() == count);
            lemma_rolled_out_wf(model);
        }
        let c = self.path[self.path.len() - 1];
        if !self.nodes[c].is_fully_expanded() && !self.nodes[c].is_terminal() {
            proof {
                lemma_expanded_structure(model);
            }
            self.expand();
        }
        let ghost grown = self@;
        proof {
            assert(grown.path[grown.path.len() - 1] < grown.nodes.len());
            assert(grown.nodes[grown.cursor() as int].wf());
            assert forall|i: int| 0 <= i < grown.nodes.len() implies (
            #[trigger] grown.nodes[i]).visits < u32::MAX by {
                if i < model.nodes.len() {
                    assert(model.nodes[i].visits <= model.budget - model.remaining);
                }
            }
        }
        let leaf = self.path[self.path.len() - 1];
        let state = self.nodes[leaf].state;
        let player = self.nodes[leaf].player;
        let outcome = simulate(&state, player, &mut self.rng);
        proof {
            lemma_structure_frame(grown, self@);
        }
        self.count_visits();
        self.remaining -= 1;
        MctsRequest::Credit { outcome }
    }

    /// Asks for a choice or ends the iteration, as the node reached demands.
    fn settle(&mut self) -> (request: MctsRequest)
        requires
            old(self).wf(),
            old(self)@.remaining > 0,
        ensures
            (final(self)@, request) == old(self)@.settled(),
            final(self).wf(),
    {
        proof {
            assert(self@.path[self@.path.len() - 1] < self@.nodes.len());
        }
        let c = self.path[self.path.len() - 1];
        if self.nodes[c].is_fully_expanded() && self.nodes[c].children.len() > 0
            && !self.nodes[c].is_terminal() {
            MctsRequest::Choose { parent: c }
        } else {
            self.finish_iteration()
        }
    }

    /// Begins an iteration at the root, or reports the chosen move where
    /// the budget is spent.
    pub fn begin_iteration(&mut self) -> (request: MctsRequest)
        requires
            old(self).wf(),
        ensures
            (final(self)@, request) == old(self)@.begun(),
            final(self).wf(),
            request is Done <==> old(self)@.remaining == 0,
            request is Credit <==> final(self)@.remaining + 1 == old(self)@.remaining,
            request is Credit || final(self)@.remaining == old(self)@.remaining,
            final(self)@.budget == old(self)@.budget,
            final(self)@.nodes[0].state == old(self)@.nodes[0].state,
            final(self)@.nodes[0].player == old(self)@.nodes[0].player,
    {
        let count = self.nodes.len();
        proof {
            assert(self@.nodes.len() == count);
            lemma_begun_wf(self@);
        }
        if self.remaining == 0 {
            return MctsRequest::Done { best: self.best_move() };
        }
        self.path.clear();
        self.path.push(0);
        proof {
            lemma_restarted_wf(old(self)@);
            assert(self@.path =~= seq![0usize]);
        }
        self.settle()
    }

    /// Goes on to the child at `child` among the children of the node
    /// reached. A `child` that names none ends the iteration at the node
    /// reached.
    pub fn descend(&mut self, child: usize) -> (request: MctsRequest)
        requires
            old(self).wf(),
        ensures
            (final(self)@, request) == old(self)@.descended(child),
            final(self).wf(),
            request is Done <==> old(self)@.remaining == 0,
            request is Credit <==> final(self)@.remaining + 1 == old(self)@.remaining,
            request is Credit || final(self)@.remaining == old(self)@.remaining,
            final(self)@.budget == old(self)@.budget,
            final(self)@.nodes[0].state == old(self)@.nodes[0].state,
            final(self)@.nodes[0].player == old(self)@.nodes[0].player,
    {
        let count = self.nodes.len();
        proof {
            assert(self@.nodes.len() == count);
            lemma_descended_wf(self@, child);
        }
        if self.remaining == 0 {
            return MctsRequest::Done { best: self.best_move() };
        }
        proof {
            assert(self@.path[self@.path.len() - 1] < self@.nodes.len());
        }
        let c = self.path[self.path.len() - 1];
        if child < self.nodes[c].children.len() {
            let target = self.nodes[c].children[child];
            proof {
                lemma_descended_structure(self@, child);
            }
            self.path.push(target);
            self.settle()
        } else {
            self.finish_iteration()
        }
    }

    /// The move that the search chooses as it stands.
    pub fn best_move(&self) -> (best: Option<Move>)
        requires
            self.wf(),
        ensures
            best == self@.best_move(),
            best is Some <==> self@.nodes[0].children.len() > 0,
    {
        let n = self.nodes[0].children.len();
        if n == 0 {
            return None;
        }
        let ghost model = self@;
        let mut best: usize = 0;
        let mut k: usize = 1;
        while k < n
            invariant
                1 <= k <= n,
                model == self@,
                model.structure(),
                n == model.nodes[0].children.len(),
                best == most_visited(model.nodes, k as nat),
                best < k,
            decreases n - k,
        {
            proof {
                assert(model.child_ok(0, k as int));
                assert(model.child_ok(0, best as int));
            }
            let candidate = self.nodes[0].children[k];
            let leader = self.nodes[0].children[best];
            if self.nodes[candidate].visits >= self.nodes[leader].visits {
                best = k;
            }
            k += 1;
        }
        proof {
            assert(model.child_ok(0, best as int));
        }
        let chosen = self.nodes[0].children[best];
        self.nodes[chosen].mv
    }
}

} // verus!

//! A Monte Carlo tree search engine over an abstract game-state contract.
//!
//! The engine grows a tree of [`SearchNode`]s inside a [`SearchTree`] arena:
//! children and parents are stored as indices into one owned vector, so the
//! tree is a strict hierarchy by construction and the ancestor walk is a walk
//! down the indices.  Each call to [`find_best_move`] runs a fixed number of
//! select / expand / simulate / backpropagate cycles and recommends the move
//! of the root's most visited child.
//!
//! Win credit is accounted in integer units of `1 / WIN_UNIT` so that a tied
//! outcome among `k` winners can credit each exactly `WIN_UNIT / k` units:
//! `WIN_UNIT` is divisible by every `k` up to sixteen.  The expectation score
//! used during selection is evaluated in `Q.16` fixed point (see
//! `fixed_point`), so selection is a deterministic function of the node
//! statistics.

use vstd::prelude::*;

use vstd::multiset::Multiset;

use crate::fixed_point::{isqrt, ln_fp, spec_isqrt, spec_ln_fp, FP_ONE};
use crate::rng::WeakRng;

verus! {

/// One unit of win credit, scaled: a whole win is `WIN_UNIT`, and a tie among
/// `k` players credits `WIN_UNIT / k` to each winner's nodes.  The value is
/// the least common multiple of `1 ..= 16`, so the credit is exact for any
/// outcome with at most sixteen winners.
pub const WIN_UNIT: u64 = 720720;

/// The engine keeps every visit count at or below this bound (2^44), which
/// keeps the win accounting and the fixed-point score free of overflow.
pub const VISIT_LIMIT: u64 = 0x1000_0000_0000;

/// The players that won a finished game; ties list every winner.
#[derive(Debug, Eq, PartialEq)]
pub struct Winners<P>(pub Vec<P>);

/// The ghost sequence type of the specification members, under a crate
/// name: an unverified implementor of [`SearchableState`] outside this
/// crate must still write those members' signatures (their bodies are never
/// run), and this alias lets it do so without naming the verifier's
/// libraries.
pub type GhostSeq<A> = Seq<A>;

/// The contract a game state must meet to be searchable.
///
/// The spec functions give the abstract value of each query; the executable
/// methods must return exactly those values, so the engine can reason about a
/// state without knowing the domain.  `lemma_state_contract` records the
/// structural obligations of the domain: a state without legal moves has
/// concluded, a state with legal moves has an active player, and a concluded
/// state names at least one winner.
pub trait SearchableState: Sized {
    /// A participant.
    type P;

    /// A choice available in some state.
    type M;

    /// Auxiliary data threaded through move application (not part of state
    /// identity).
    type C;

    /// Whether this value is a well-formed state of the domain.
    spec fn inv(&self) -> bool;

    /// Whether the game has concluded in this state.
    spec fn is_terminal(&self) -> bool;

    /// The full fixed roster of players.
    spec fn spec_players(&self) -> Seq<Self::P>;

    /// The player whose decision is pending, absent when concluded.
    spec fn spec_active(&self) -> Option<Self::P>;

    /// The legal moves from this state.
    spec fn spec_moves(&self) -> Seq<Self::M>;

    /// The winners, meaningful when the game has concluded.
    spec fn spec_winners(&self) -> Seq<Self::P>;

    /// The successor state, and the context as it stands afterwards, of
    /// applying a legal move.  Move application is a function of the state
    /// and the threaded context alone — the context carries any random
    /// source — which is what makes a fixed seed yield a fixed playout.
    spec fn spec_next(&self, m: Self::M, c: Self::C) -> (Self, Self::C);

    /// The structural obligations of the contract.
    proof fn lemma_state_contract(&self)
        requires
            self.inv(),
        ensures
            self.spec_moves().len() == 0 ==> self.is_terminal(),
            self.spec_moves().len() > 0 ==> self.spec_active() is Some,
            self.is_terminal() ==> self.spec_winners().len() > 0,
            self.is_terminal() ==> self.spec_active() is None,
    ;

    /// The conclusion query: `Some` exactly when the game has concluded, and
    /// then the winner set is the (non-empty) set of winning players.
    fn game_result(&self) -> (r: Option<Winners<Self::P>>)
        requires
            self.inv(),
        ensures
            r is Some <==> self.is_terminal(),
            r matches Some(w) ==> w.0@ == self.spec_winners(),
    ;

    fn all_players(&self) -> (r: Vec<Self::P>)
        requires
            self.inv(),
        ensures
            r@ == self.spec_players(),
    ;

    fn active_player(&self) -> (r: Option<Self::P>)
        requires
            self.inv(),
        ensures
            r == self.spec_active(),
    ;

    fn all_moves(&self) -> (r: Vec<Self::M>)
        requires
            self.inv(),
        ensures
            r@ == self.spec_moves(),
    ;

    /// Applies a legal move to a copy of the state.
    fn make_move(&self, m: Self::M, ctx: &mut Self::C) -> (r: Self)
        requires
            self.inv(),
            self.spec_moves().contains(m),
        ensures
            r.inv(),
            (r, *final(ctx)) == self.spec_next(m, *old(ctx)),
    ;

    /// Applies a legal move in place.
    fn make_move_mut(&mut self, m: Self::M, ctx: &mut Self::C)
        requires
            old(self).inv(),
            old(self).spec_moves().contains(m),
        ensures
            final(self).inv(),
            (*final(self), *final(ctx)) == old(self).spec_next(m, *old(ctx)),
    ;

    fn clone_state(&self) -> (r: Self)
        ensures
            r == *self,
    ;

    fn clone_move(m: &Self::M) -> (r: Self::M)
        ensures
            r == *m,
    ;

    fn eq_player(a: &Self::P, b: &Self::P) -> (r: bool)
        ensures
            r <==> a == b,
    ;

    /// A human-readable label for a player, for diagnostics only.
    fn printable_player_identifier(&self, p: &Self::P) -> String
        requires
            self.inv(),
    ;
}

/// One vertex of the exploration tree: a state snapshot, its accumulated
/// statistics, and index links to its parent and children in the arena.
pub struct SearchNode<T: SearchableState> {
    /// The domain state at this point of the tree; owned by the node.
    pub state: T,
    /// Win credit awarded to `player_just_moved`, in units of `1 / WIN_UNIT`.
    pub wins: u64,
    /// Number of playouts that passed through this node.
    pub visits: u64,
    /// The move that produced this node from its parent; `None` at the root.
    pub last_move: Option<T::M>,
    /// Legal moves from `state` not yet expanded into children.
    pub untried_moves: Vec<T::M>,
    /// The player credited with reaching this node.
    pub player_just_moved: T::P,
    /// Arena index of the parent; `None` at the root.
    pub parent: Option<usize>,
    /// Arena indices of the children, in creation order.
    pub children: Vec<usize>,
}

/// The exploration tree of one search call: an arena of nodes whose entry `0`
/// is the root.  Parent indices always point backwards and child indices
/// forwards, so the tree is a strict hierarchy by construction.
pub struct SearchTree<T: SearchableState> {
    pub nodes: Vec<SearchNode<T>>,
}

/// The credit one playout outcome awards a node whose `player_just_moved` is
/// `p`: a `1 / k` share of a win (in `WIN_UNIT` units) when `p` is one of the
/// `k` winners, nothing otherwise.
pub open spec fn spec_credit<P>(p: P, winners: Seq<P>) -> int {
    if winners.contains(p) {
        WIN_UNIT as int / winners.len() as int
    } else {
        0
    }
}

/// The UCT expectation of a node with statistics `wins / visits` under a
/// parent with `parent_visits`, in `Q.16` fixed point: the exploitation term
/// `wins / visits` plus the exploration term `sqrt(2 ln(parent_visits) /
/// visits)`.
pub open spec fn spec_expectation(wins: u64, visits: u64, parent_visits: u64) -> int
    recommends
        1 <= visits,
        1 <= parent_visits,
{
    (wins * FP_ONE) / (visits * WIN_UNIT) + spec_isqrt(
        (2 * spec_ln_fp(parent_visits as int) * FP_ONE) / (visits as int),
    )
}

/// Evaluates `spec_expectation` exactly.
pub fn expectation_score(wins: u64, visits: u64, parent_visits: u64) -> (r: u64)
    requires
        1 <= visits,
        1 <= parent_visits <= VISIT_LIMIT,
        wins <= visits * WIN_UNIT,
    ensures
        r == spec_expectation(wins, visits, parent_visits),
{
    proof {
        assert((wins as int) * (FP_ONE as int) <= ((visits as int) * (WIN_UNIT as int)) * (
        FP_ONE as int)) by (nonlinear_arith)
            requires
                wins <= visits * WIN_UNIT,
        ;
        assert((visits as int) * (WIN_UNIT as int) >= 1) by (nonlinear_arith)
            requires
                visits >= 1,
        ;
        vstd::arithmetic::div_mod::lemma_multiply_divide_le(
            (wins as int) * (FP_ONE as int),
            (visits as int) * (WIN_UNIT as int),
            FP_ONE as int,
        );
        vstd::arithmetic::div_mod::lemma_div_pos_is_pos(
            (wins as int) * (FP_ONE as int),
            (visits as int) * (WIN_UNIT as int),
        );
    }
    let payout = (((wins as u128) * (FP_ONE as u128)) / ((visits as u128) * (WIN_UNIT as u128)))
        as u64;
    let l = ln_fp(parent_visits);
    let rad = (2 * l * FP_ONE) / visits;
    let conf = isqrt(rad);
    proof {
        assert(conf <= rad) by (nonlinear_arith)
            requires
                conf * conf <= rad,
        ;
    }
    payout + conf
}

impl<T: SearchableState> SearchTree<T> {
    /// The `last_move` labels of the children of node `i`, in child order.
    pub open spec fn child_moves(self, i: int) -> Seq<T::M> {
        Seq::new(
            self.nodes[i].children@.len(),
            |k: int| self.nodes[self.nodes[i].children@[k] as int].last_move->0,
        )
    }

    /// The sum of the visit counters of the nodes listed in `cs`.
    pub open spec fn sum_visits(nodes: Seq<SearchNode<T>>, cs: Seq<usize>) -> int
        decreases cs.len(),
    {
        if cs.len() == 0 {
            0
        } else {
            Self::sum_visits(nodes, cs.drop_last()) + nodes[cs.last() as int].visits
        }
    }

    /// The sum of the visit counters of the children of node `i`.
    pub open spec fn child_visit_sum(self, i: int) -> int {
        Self::sum_visits(self.nodes@, self.nodes[i].children@)
    }

    /// Local well-formedness of node `i`: a valid state, win credit bounded
    /// by visits, backwards parent and forwards child links that agree with
    /// each other, children in creation (index) order, and untried moves and
    /// child moves that together are exactly the legal moves of the state.
    pub open spec fn node_wf(self, i: int) -> bool {
        let n = self.nodes[i];
        &&& n.state.inv()
        &&& n.wins <= n.visits * WIN_UNIT
        &&& n.visits <= self.nodes[0].visits
        &&& (i == 0 ==> n.parent is None && n.last_move is None)
        &&& (i != 0 ==> n.parent is Some && n.last_move is Some)
        &&& (i != 0 ==> 0 <= n.parent->0 < i && self.nodes[n.parent->0 as int].children@.contains(
            i as usize,
        ))
        &&& (forall|k: int|
            0 <= k < n.children@.len() ==> i < #[trigger] n.children@[k] < self.nodes@.len()
                && self.nodes[n.children@[k] as int].parent == Some(i as usize))
        &&& (forall|k1: int, k2: int|
            0 <= k1 < k2 < n.children@.len() ==> #[trigger] n.children@[k1]
                < #[trigger] n.children@[k2])
        &&& n.untried_moves@.to_multiset().add(self.child_moves(i).to_multiset())
            == n.state.spec_moves().to_multiset()
    }

    /// The structural part of well-formedness: every node is locally
    /// well-formed, the root exists and its state keeps a non-empty move
    /// set.
    pub open spec fn nodes_wf(self) -> bool {
        &&& self.nodes@.len() >= 1
        &&& self.nodes[0].state.spec_moves().len() >= 1
        &&& forall|i: int| 0 <= i < self.nodes@.len() ==> self.node_wf(i)
    }

    /// Every node below the root has been backpropagated at least once.
    /// (A node is created with zero visits and receives its first visit in
    /// the same search iteration, so between iterations this always holds.)
    pub open spec fn visits_pos(self) -> bool {
        forall|i: int| 1 <= i < self.nodes@.len() ==> self.nodes[i].visits >= 1
    }

    /// Well-formedness of the whole tree between iterations.  Beyond the
    /// structural conditions, the root's visit counter equals the sum of its
    /// children's: every playout counted at the root came through exactly
    /// one of its children.
    pub open spec fn wf(self) -> bool {
        &&& self.nodes_wf()
        &&& self.visits_pos()
        &&& self.nodes[0].visits == self.child_visit_sum(0)
    }

    /// Builds the one-node tree for a fresh search.  The root's
    /// `player_just_moved` is the last entry of the roster: with two players
    /// in alternation that is the player who moved before the root's active
    /// player.  For more than two players the field only matters for how the
    /// root itself is credited, a documented approximation of the design.
    pub fn new(root_state: T) -> (t: SearchTree<T>)
        requires
            root_state.inv(),
            root_state.spec_moves().len() >= 1,
            root_state.spec_players().len() >= 1,
        ensures
            t.wf(),
            t.nodes@.len() == 1,
            t.nodes[0].state == root_state,
            t.nodes[0].visits == 0,
            t.nodes[0].wins == 0,
            t.nodes[0].children@.len() == 0,
            t.nodes[0].untried_moves@ == root_state.spec_moves(),
    {
        let untried = root_state.all_moves();
        let mut players = root_state.all_players();
        let just_moved = players.pop().unwrap();
        let root = SearchNode {
            state: root_state,
            wins: 0u64,
            visits: 0u64,
            last_move: None,
            untried_moves: untried,
            player_just_moved: just_moved,
            parent: None,
            children: Vec::new(),
        };
        let mut nodes = Vec::new();
        nodes.push(root);
        let t = SearchTree { nodes };
        proof {
            assert(t.child_moves(0) =~= Seq::<T::M>::empty());
            broadcast use vstd::seq_lib::group_to_multiset_ensures;

            assert(t.child_moves(0).to_multiset() =~= Multiset::<T::M>::empty());
            assert(t.nodes[0].untried_moves@.to_multiset().add(
                t.child_moves(0).to_multiset(),
            ) =~= t.nodes[0].state.spec_moves().to_multiset());
            assert(t.nodes[0].children@ =~= Seq::<usize>::empty());
            assert(t.child_visit_sum(0) == 0);
        }
        t
    }

    /// Records one playout outcome at node `i`: one more visit, and the
    /// outcome's credit added to the win counter.
    fn update_node(&mut self, i: usize, result: &Winners<T::P>)
        requires
            i < old(self).nodes@.len(),
            old(self).nodes[i as int].visits < VISIT_LIMIT,
            old(self).nodes[i as int].wins <= old(self).nodes[i as int].visits * WIN_UNIT,
        ensures
            final(self).nodes@.len() == old(self).nodes@.len(),
            final(self).nodes[i as int].visits == old(self).nodes[i as int].visits + 1,
            final(self).nodes[i as int].wins == old(self).nodes[i as int].wins + spec_credit(
                old(self).nodes[i as int].player_just_moved,
                result.0@,
            ),
            final(self).nodes[i as int].wins <= final(self).nodes[i as int].visits * WIN_UNIT,
            final(self).nodes[i as int].state == old(self).nodes[i as int].state,
            final(self).nodes[i as int].last_move == old(self).nodes[i as int].last_move,
            final(self).nodes[i as int].untried_moves == old(self).nodes[i as int].untried_moves,
            final(self).nodes[i as int].player_just_moved == old(
                self,
            ).nodes[i as int].player_just_moved,
            final(self).nodes[i as int].parent == old(self).nodes[i as int].parent,
            final(self).nodes[i as int].children == old(self).nodes[i as int].children,
            forall|j: int|
                0 <= j < old(self).nodes@.len() && j != i ==> final(self).nodes[j] == old(
                    self,
                ).nodes[j],
    {
        proof {
            let v = old(self).nodes[i as int].visits as int;
            assert(v * WIN_UNIT + WIN_UNIT == (v + 1) * WIN_UNIT) by (nonlinear_arith);
            assert((v + 1) * WIN_UNIT <= (VISIT_LIMIT as int) * (WIN_UNIT as int))
                by (nonlinear_arith)
                requires
                    v + 1 <= VISIT_LIMIT,
            ;
        }
        let contained = winners_contain::<T>(result, &self.nodes[i].player_just_moved);
        let node = &mut self.nodes[i];
        node.visits = node.visits + 1;
        if contained {
            let share = WIN_UNIT / (result.0.len() as u64);
            proof {
                assert(result.0@.len() >= 1);
                assert(WIN_UNIT as int / (result.0@.len() as int) <= WIN_UNIT as int) by {
                    vstd::arithmetic::div_mod::lemma_div_nonincreasing(
                        WIN_UNIT as int,
                        result.0@.len() as int,
                    );
                }
                vstd::arithmetic::div_mod::lemma_div_pos_is_pos(
                    WIN_UNIT as int,
                    result.0@.len() as int,
                );
            }
            node.wins = node.wins + share;
        }
    }

    /// If the visit counters of all listed nodes agree between two node
    /// vectors, the sums agree.
    proof fn lemma_sum_congruent(nodes1: Seq<SearchNode<T>>, nodes2: Seq<SearchNode<T>>, cs: Seq<usize>)
        requires
            forall|k: int|
                0 <= k < cs.len() ==> nodes2[#[trigger] cs[k] as int].visits == nodes1[cs[k] as int].visits,
        ensures
            Self::sum_visits(nodes2, cs) == Self::sum_visits(nodes1, cs),
        decreases cs.len(),
    {
        if cs.len() > 0 {
            Self::lemma_sum_congruent(nodes1, nodes2, cs.drop_last());
        }
    }

    /// If exactly one listed node's visit counter grew by one and the rest
    /// are unchanged, the sum grew by one.
    proof fn lemma_sum_bump(
        nodes1: Seq<SearchNode<T>>,
        nodes2: Seq<SearchNode<T>>,
        cs: Seq<usize>,
        c: usize,
    )
        requires
            cs.contains(c),
            forall|k1: int, k2: int| 0 <= k1 < k2 < cs.len() ==> cs[k1] != cs[k2],
            nodes2[c as int].visits == nodes1[c as int].visits + 1,
            forall|k: int|
                0 <= k < cs.len() && cs[k] != c ==> nodes2[#[trigger] cs[k] as int].visits
                    == nodes1[cs[k] as int].visits,
        ensures
            Self::sum_visits(nodes2, cs) == Self::sum_visits(nodes1, cs) + 1,
        decreases cs.len(),
    {
        let last = cs.last();
        if last == c {
            assert(forall|k: int| 0 <= k < cs.len() - 1 ==> cs.drop_last()[k] == cs[k]);
            assert(forall|k: int| 0 <= k < cs.len() - 1 ==> cs[k] != c);
            Self::lemma_sum_congruent(nodes1, nodes2, cs.drop_last());
        } else {
            let j = choose|j: int| 0 <= j < cs.len() && cs[j] == c;
            assert(j < cs.len() - 1);
            assert(cs.drop_last()[j] == c);
            assert(cs.drop_last().contains(c));
            Self::lemma_sum_bump(nodes1, nodes2, cs.drop_last(), c);
        }
    }

    /// Each listed node's visit counter is at most the sum.
    proof fn lemma_sum_lower(nodes: Seq<SearchNode<T>>, cs: Seq<usize>, j: int)
        requires
            0 <= j < cs.len(),
        ensures
            nodes[cs[j] as int].visits <= Self::sum_visits(nodes, cs),
        decreases cs.len(),
    {
        Self::lemma_sum_nonneg(nodes, cs.drop_last());
        if j < cs.len() - 1 {
            Self::lemma_sum_lower(nodes, cs.drop_last(), j);
        }
    }

    proof fn lemma_sum_nonneg(nodes: Seq<SearchNode<T>>, cs: Seq<usize>)
        ensures
            Self::sum_visits(nodes, cs) >= 0,
        decreases cs.len(),
    {
        if cs.len() > 0 {
            Self::lemma_sum_nonneg(nodes, cs.drop_last());
        }
    }

    /// The child of `cs` that a most-visited scan returns: the one with the
    /// highest visit counter, the later one on ties (a scan that replaces
    /// the candidate on `>=`).
    pub open spec fn spec_most_visited(nodes: Seq<SearchNode<T>>, cs: Seq<usize>) -> usize
        recommends
            cs.len() >= 1,
        decreases cs.len(),
    {
        if cs.len() <= 1 {
            cs[0]
        } else {
            let prev = Self::spec_most_visited(nodes, cs.drop_last());
            if nodes[cs.last() as int].visits >= nodes[prev as int].visits {
                cs.last()
            } else {
                prev
            }
        }
    }

    /// The scan result is one of the listed nodes and has the highest visit
    /// counter among them.
    pub proof fn lemma_most_visited_max(nodes: Seq<SearchNode<T>>, cs: Seq<usize>)
        requires
            cs.len() >= 1,
        ensures
            cs.contains(Self::spec_most_visited(nodes, cs)),
            forall|k: int|
                0 <= k < cs.len() ==> nodes[#[trigger] cs[k] as int].visits
                    <= nodes[Self::spec_most_visited(nodes, cs) as int].visits,
        decreases cs.len(),
    {
        if cs.len() > 1 {
            Self::lemma_most_visited_max(nodes, cs.drop_last());
            let prev = Self::spec_most_visited(nodes, cs.drop_last());
            let m = Self::spec_most_visited(nodes, cs);
            assert(forall|k: int| 0 <= k < cs.len() - 1 ==> cs.drop_last()[k] == cs[k]);
            if cs.drop_last().contains(m) {
                let j = choose|j: int| 0 <= j < cs.drop_last().len() && cs.drop_last()[j] == m;
                assert(cs[j] == m);
            }
        }
    }

    /// The most visited child of node `i`: the final move recommendation
    /// and the spine of the diagnostics dump.  Must not be called on a
    /// childless node.
    pub fn most_visited_child(&self, i: usize) -> (r: usize)
        requires
            self.nodes_wf(),
            i < self.nodes@.len(),
            self.nodes[i as int].children@.len() >= 1,
        ensures
            self.nodes[i as int].children@.contains(r),
            r == Self::spec_most_visited(self.nodes@, self.nodes[i as int].children@),
            r < self.nodes@.len(),
    {
        let cs = &self.nodes[i].children;
        let mut best = cs[0];
        let mut k: usize = 1;
        proof {
            assert(cs@.take(1) =~= seq![cs@[0]]);
        }
        while k < cs.len()
            invariant
                self.nodes_wf(),
                i < self.nodes@.len(),
                cs == self.nodes[i as int].children,
                1 <= k <= cs@.len(),
                cs@.contains(best),
                best == Self::spec_most_visited(self.nodes@, cs@.take(k as int)),
            decreases cs@.len() - k,
        {
            proof {
                assert(cs@.take(k + 1).drop_last() =~= cs@.take(k as int));
                assert(cs@.take(k + 1).last() == cs@[k as int]);
                assert(self.node_wf(i as int));
            }
            let c = cs[k];
            if self.nodes[c].visits >= self.nodes[best].visits {
                best = c;
            }
            k = k + 1;
        }
        proof {
            assert(cs@.take(cs@.len() as int) =~= cs@);
            assert(self.node_wf(i as int));
        }
        best
    }

    /// The child of `cs` that a most-promising scan returns: the one with
    /// the highest expectation score under `parent_visits`, the earlier one
    /// on ties (a scan that replaces the candidate only on `>`).
    pub open spec fn spec_most_promising(
        nodes: Seq<SearchNode<T>>,
        cs: Seq<usize>,
        parent_visits: u64,
    ) -> usize
        recommends
            cs.len() >= 1,
        decreases cs.len(),
    {
        if cs.len() <= 1 {
            cs[0]
        } else {
            let prev = Self::spec_most_promising(nodes, cs.drop_last(), parent_visits);
            let c = cs.last();
            if spec_expectation(nodes[c as int].wins, nodes[c as int].visits, parent_visits)
                > spec_expectation(nodes[prev as int].wins, nodes[prev as int].visits, parent_visits) {
                c
            } else {
                prev
            }
        }
    }

    /// The scan result is one of the listed nodes and scores at least as
    /// high as every one of them.
    pub proof fn lemma_most_promising_max(
        nodes: Seq<SearchNode<T>>,
        cs: Seq<usize>,
        parent_visits: u64,
    )
        requires
            cs.len() >= 1,
        ensures
            cs.contains(Self::spec_most_promising(nodes, cs, parent_visits)),
            forall|k: int|
                0 <= k < cs.len() ==> spec_expectation(
                    nodes[#[trigger] cs[k] as int].wins,
                    nodes[cs[k] as int].visits,
                    parent_visits,
                ) <= spec_expectation(
                    nodes[Self::spec_most_promising(nodes, cs, parent_visits) as int].wins,
                    nodes[Self::spec_most_promising(nodes, cs, parent_visits) as int].visits,
                    parent_visits,
                ),
        decreases cs.len(),
    {
        if cs.len() > 1 {
            Self::lemma_most_promising_max(nodes, cs.drop_last(), parent_visits);
            let m = Self::spec_most_promising(nodes, cs, parent_visits);
            assert(forall|k: int| 0 <= k < cs.len() - 1 ==> cs.drop_last()[k] == cs[k]);
            if cs.drop_last().contains(m) {
                let j = choose|j: int|
                    0 <= j < cs.drop_last().len() && cs.drop_last()[j] == m;
                assert(cs[j] == m);
            }
        }
    }

    /// The child to descend into during selection: the one with the highest
    /// expectation score, ties broken towards the earlier child, so that
    /// selection is a deterministic function of the node statistics.
    pub fn select_most_promising_child(&self, i: usize) -> (r: usize)
        requires
            self.wf(),
            i < self.nodes@.len(),
            self.nodes[i as int].children@.len() >= 1,
            self.nodes[0].visits <= VISIT_LIMIT,
        ensures
            self.nodes[i as int].children@.contains(r),
            r == Self::spec_most_promising(
                self.nodes@,
                self.nodes[i as int].children@,
                self.nodes[i as int].visits,
            ),
            r < self.nodes@.len(),
    {
        proof {
            assert(self.node_wf(i as int));
            if i == 0 {
                Self::lemma_sum_lower(self.nodes@, self.nodes[0].children@, 0);
            }
        }
        let parent_visits = self.nodes[i].visits;
        let cs = &self.nodes[i].children;
        proof {
            assert(self.node_wf(cs@[0] as int));
            assert(self.nodes[cs@[0] as int].visits >= 1);
            assert(self.nodes[cs@[0] as int].visits <= self.nodes[0].visits);
        }
        let mut best = cs[0];
        let mut best_score = expectation_score(
            self.nodes[cs[0]].wins,
            self.nodes[cs[0]].visits,
            parent_visits,
        );
        let mut k: usize = 1;
        proof {
            assert(cs@.take(1) =~= seq![cs@[0]]);
        }
        while k < cs.len()
            invariant
                self.wf(),
                i < self.nodes@.len(),
                cs == self.nodes[i as int].children,
                parent_visits == self.nodes[i as int].visits,
                1 <= parent_visits <= VISIT_LIMIT,
                1 <= k <= cs@.len(),
                cs@.contains(best),
                best < self.nodes@.len(),
                best == Self::spec_most_promising(self.nodes@, cs@.take(k as int), parent_visits),
                best_score == spec_expectation(
                    self.nodes[best as int].wins,
                    self.nodes[best as int].visits,
                    parent_visits,
                ),
            decreases cs@.len() - k,
        {
            proof {
                assert(cs@.take(k + 1).drop_last() =~= cs@.take(k as int));
                assert(cs@.take(k + 1).last() == cs@[k as int]);
                assert(self.node_wf(i as int));
            }
            let c = cs[k];
            proof {
                assert(self.node_wf(c as int));
                assert(self.nodes[c as int].visits >= 1);
                assert(self.nodes[c as int].visits <= self.nodes[0].visits);
            }
            let score = expectation_score(self.nodes[c].wins, self.nodes[c].visits, parent_visits);
            if score > best_score {
                best = c;
                best_score = score;
            }
            k = k + 1;
        }
        proof {
            assert(cs@.take(cs@.len() as int) =~= cs@);
            assert(self.node_wf(i as int));
        }
        best
    }

    /// Expands one untried move of `node_idx` into a new child: removes the
    /// move, applies it to a copy of the node's state, and appends the child
    /// (with the successor state and its own untried moves) to the arena.
    /// The new child starts with zero visits; the caller backpropagates the
    /// following playout through it, which restores `wf`.
    fn expand_node_by_move(&mut self, node_idx: usize, move_idx: usize, ctx: &mut T::C) -> (child:
        usize)
        requires
            old(self).nodes_wf(),
            node_idx < old(self).nodes@.len(),
            move_idx < old(self).nodes[node_idx as int].untried_moves@.len(),
            old(self).nodes@.len() < usize::MAX,
        ensures
            final(self).nodes_wf(),
            final(self).nodes@.len() == old(self).nodes@.len() + 1,
            child == old(self).nodes@.len(),
            final(self).nodes[child as int].visits == 0,
            final(self).nodes[child as int].wins == 0,
            final(self).nodes[child as int].parent == Some(node_idx),
            final(self).nodes[child as int].children@.len() == 0,
            final(self).nodes[child as int].last_move == Some(
                old(self).nodes[node_idx as int].untried_moves@[move_idx as int],
            ),
            final(self).nodes[child as int].player_just_moved == old(
                self,
            ).nodes[node_idx as int].state.spec_active()->0,
            final(self).nodes[child as int].state == old(
                self,
            ).nodes[node_idx as int].state.spec_next(
                old(self).nodes[node_idx as int].untried_moves@[move_idx as int],
                *old(ctx),
            ).0,
            *final(ctx) == old(self).nodes[node_idx as int].state.spec_next(
                old(self).nodes[node_idx as int].untried_moves@[move_idx as int],
                *old(ctx),
            ).1,
            final(self).nodes[child as int].untried_moves@ == final(self).nodes[child as int].state.spec_moves(),
            final(self).nodes[node_idx as int].untried_moves@ == old(
                self,
            ).nodes[node_idx as int].untried_moves@.remove(move_idx as int),
            forall|x: int|
                0 <= x < old(self).nodes@.len() && x != node_idx ==> final(self).nodes[x] == old(
                    self,
                ).nodes[x],
            final(self).nodes[node_idx as int].visits == old(self).nodes[node_idx as int].visits,
            final(self).nodes[node_idx as int].wins == old(self).nodes[node_idx as int].wins,
            final(self).nodes[node_idx as int].state == old(self).nodes[node_idx as int].state,
            final(self).nodes[node_idx as int].parent == old(self).nodes[node_idx as int].parent,
            final(self).nodes[node_idx as int].last_move == old(
                self,
            ).nodes[node_idx as int].last_move,
            final(self).nodes[node_idx as int].player_just_moved == old(
                self,
            ).nodes[node_idx as int].player_just_moved,
            final(self).nodes[node_idx as int].children@ == old(
                self,
            ).nodes[node_idx as int].children@.push(child),
            final(self).nodes[0].visits == old(self).nodes[0].visits,
    {
        proof {
            assert(self.node_wf(node_idx as int));
            broadcast use vstd::seq_lib::group_to_multiset_ensures;

            let n = self.nodes[node_idx as int];
            let m = n.untried_moves@[move_idx as int];
            assert(n.untried_moves@.to_multiset().count(m) > 0);
            assert(n.state.spec_moves().to_multiset().count(m) > 0) by {
                assert(n.state.spec_moves().to_multiset() == n.untried_moves@.to_multiset().add(
                    self.child_moves(node_idx as int).to_multiset(),
                ));
            }
            assert(n.state.spec_moves().contains(m));
            assert(n.state.spec_moves().len() > 0);
            n.state.lemma_state_contract();
        }
        let ghost old_self = *self;
        let picked = T::clone_move(&self.nodes[node_idx].untried_moves[move_idx]);
        let apply = T::clone_move(&picked);
        let new_state = self.nodes[node_idx].state.make_move(apply, ctx);
        let child_untried = new_state.all_moves();
        let pjm = self.nodes[node_idx].state.active_player().unwrap();
        let child_idx = self.nodes.len();
        let child_node = SearchNode {
            state: new_state,
            wins: 0u64,
            visits: 0u64,
            last_move: Some(picked),
            untried_moves: child_untried,
            player_just_moved: pjm,
            parent: Some(node_idx),
            children: Vec::new(),
        };
        self.nodes.push(child_node);
        let node = &mut self.nodes[node_idx];
        let removed = node.untried_moves.remove(move_idx);
        node.children.push(child_idx);
        proof {
            broadcast use vstd::seq_lib::group_to_multiset_ensures;

            let t1 = old_self;
            let t2 = *self;
            let ghost m = t1.nodes[node_idx as int].untried_moves@[move_idx as int];
            // The new child is locally well-formed.
            assert(t2.child_moves(child_idx as int) =~= Seq::<T::M>::empty());
            assert(t2.child_moves(child_idx as int).to_multiset() =~= Multiset::<T::M>::empty());
            assert(t2.nodes[child_idx as int].untried_moves@.to_multiset().add(
                t2.child_moves(child_idx as int).to_multiset(),
            ) =~= t2.nodes[child_idx as int].state.spec_moves().to_multiset());
            assert(t2.nodes[node_idx as int].children@[t2.nodes[node_idx as int].children@.len()
                - 1] == child_idx);
            assert(t2.nodes[node_idx as int].children@.contains(child_idx as usize));
            assert(t2.node_wf(child_idx as int));
            // The expanded node keeps its move multiset: one move left the
            // untried list and entered the child-move list.
            assert(t2.child_moves(node_idx as int) =~= t1.child_moves(node_idx as int).push(m));
            assert(t2.nodes[node_idx as int].untried_moves@.to_multiset()
                =~= t1.nodes[node_idx as int].untried_moves@.to_multiset().remove(m));
            assert(t2.child_moves(node_idx as int).to_multiset() =~= t1.child_moves(
                node_idx as int,
            ).to_multiset().insert(m));
            assert(t2.nodes[node_idx as int].untried_moves@.to_multiset().add(
                t2.child_moves(node_idx as int).to_multiset(),
            ) =~= t1.nodes[node_idx as int].untried_moves@.to_multiset().add(
                t1.child_moves(node_idx as int).to_multiset(),
            )) by {
                broadcast use vstd::multiset::group_multiset_axioms;

                assert(t1.nodes[node_idx as int].untried_moves@.to_multiset().count(m) > 0);
            }
            assert(t2.node_wf(node_idx as int));
            // Unchanged nodes stay locally well-formed.
            assert forall|x: int|
                0 <= x < t2.nodes@.len() && x != node_idx && x != child_idx implies t2.node_wf(
                x,
            ) by {
                assert(t1.node_wf(x));
                assert(t2.child_moves(x) =~= t1.child_moves(x));
                if x != 0 {
                    let p = t1.nodes[x].parent->0;
                    assert(t1.nodes[p as int].children@.contains(x as usize));
                    let j = choose|j: int|
                        0 <= j < t1.nodes[p as int].children@.len() && t1.nodes[p as int].children@[j]
                            == x as usize;
                    assert(t2.nodes[p as int].children@[j] == x as usize);
                    assert(t2.nodes[p as int].children@.contains(x as usize));
                }
            }
        }
        child_idx
    }

    /// A node after one playout outcome has been recorded on it.
    pub open spec fn spec_updated(n: SearchNode<T>, winners: Seq<T::P>) -> SearchNode<T> {
        SearchNode {
            state: n.state,
            wins: (n.wins + spec_credit(n.player_just_moved, winners)) as u64,
            visits: (n.visits + 1) as u64,
            last_move: n.last_move,
            untried_moves: n.untried_moves,
            player_just_moved: n.player_just_moved,
            parent: n.parent,
            children: n.children,
        }
    }

    /// The chain of nodes from the root down to node `i`: the ancestors of
    /// `i` followed by `i` itself.  (An unresolvable parent link would end
    /// the chain early; under `nodes_wf` every link resolves.)
    pub open spec fn spec_path(self, i: int) -> Seq<int>
        decreases i,
    {
        if i <= 0 {
            seq![0int]
        } else if self.nodes[i].parent is Some {
            let p = self.nodes[i].parent->0;
            if p < i {
                self.spec_path(p as int).push(i)
            } else {
                seq![i]
            }
        } else {
            seq![i]
        }
    }

    /// Shape of a root-to-node chain in a well-formed tree: it starts at the
    /// root, ends at `i`, is strictly increasing, and consecutive entries
    /// are linked by the parent references.
    proof fn lemma_path_props(self, i: int)
        requires
            self.nodes_wf(),
            0 <= i < self.nodes@.len(),
        ensures
            self.spec_path(i).len() >= 1,
            self.spec_path(i)[0] == 0,
            self.spec_path(i).last() == i,
            forall|a: int, b: int|
                0 <= a < b < self.spec_path(i).len() ==> #[trigger] self.spec_path(i)[a]
                    < #[trigger] self.spec_path(i)[b],
            forall|k: int| 0 <= k < self.spec_path(i).len() ==> 0 <= #[trigger] self.spec_path(i)[k] <= i,
            forall|k: int|
                1 <= k < self.spec_path(i).len() ==> self.nodes[#[trigger] self.spec_path(i)[k]].parent
                    == Some(self.spec_path(i)[k - 1] as usize),
        decreases i,
    {
        if i > 0 {
            assert(self.node_wf(i));
            let p = self.nodes[i].parent->0;
            self.lemma_path_props(p as int);
            let pre = self.spec_path(p as int);
            let path = self.spec_path(i);
            assert(path == pre.push(i));
            assert(forall|k: int| 0 <= k < pre.len() ==> path[k] == pre[k]);
            assert(path.last() == i);
        }
    }

    /// Records one playout outcome on `from` and every node on its chain to
    /// the root: each node on the path gets exactly one more visit and the
    /// outcome's credit, every other node is untouched.  Re-establishes the
    /// full tree invariant (the expanded node may enter with zero visits).
    #[verifier::rlimit(100)]
    #[verifier::spinoff_prover]
    pub fn backpropagate(&mut self, from: usize, result: &Winners<T::P>)
        requires
            old(self).nodes_wf(),
            1 <= from < old(self).nodes@.len(),
            old(self).nodes[0].visits < VISIT_LIMIT,
            forall|x: int|
                1 <= x < old(self).nodes@.len() && x != from ==> old(self).nodes[x].visits >= 1,
            old(self).nodes[0].visits == old(self).child_visit_sum(0),
        ensures
            final(self).wf(),
            final(self).nodes@.len() == old(self).nodes@.len(),
            final(self).nodes[0].visits == old(self).nodes[0].visits + 1,
            Self::backprop_effect(
                *old(self),
                *final(self),
                old(self).spec_path(from as int),
                result.0@,
            ),
            forall|x: int|
                0 <= x < old(self).nodes@.len() ==> final(self).nodes[x].state == old(
                    self,
                ).nodes[x].state && final(self).nodes[x].children == old(self).nodes[x].children,
    {
        let ghost t1 = *old(self);
        let ghost path = t1.spec_path(from as int);
        proof {
            t1.lemma_path_props(from as int);
            assert(path.len() >= 2) by {
                assert(path[0] == 0 && path.last() == from);
                if path.len() < 2 {
                    assert(path[0] == path[path.len() - 1]);
                }
            }
            assert(t1.node_wf(from as int));
        }
        let ghost mut pos: int = path.len() - 1;
        self.update_node(from, result);
        let mut cur = from;
        proof {
            assert(path.last() == from);
            assert(path[pos] == from);
            assert(path.skip(pos).len() == 1);
            assert(path.skip(pos)[0] == path[pos]);
            assert(path.skip(pos).contains(from as int));
            assert(self.nodes[from as int] == Self::spec_updated(t1.nodes[from as int], result.0@));
            assert forall|x: int|
                0 <= x < t1.nodes@.len() && !path.skip(pos).contains(x) implies self.nodes[x]
                == t1.nodes[x] by {
                assert(x != from);
            }
        }
        while cur != 0
            invariant
                t1 == *old(self),
                t1.nodes_wf(),
                path == t1.spec_path(from as int),
                path.len() >= 2,
                path[0] == 0,
                path.last() == from,
                1 <= from < t1.nodes@.len(),
                t1.nodes[0].visits < VISIT_LIMIT,
                forall|a: int, b: int|
                    0 <= a < b < path.len() ==> #[trigger] path[a] < #[trigger] path[b],
                forall|k: int| 0 <= k < path.len() ==> 0 <= #[trigger] path[k] <= from,
                forall|k: int|
                    1 <= k < path.len() ==> t1.nodes[#[trigger] path[k]].parent == Some(
                        path[k - 1] as usize,
                    ),
                0 <= pos < path.len(),
                path[pos] == cur,
                self.nodes@.len() == t1.nodes@.len(),
                forall|k: int|
                    pos <= k < path.len() ==> self.nodes[#[trigger] path[k]]
                        == Self::spec_updated(t1.nodes[path[k]], result.0@),
                forall|x: int|
                    0 <= x < t1.nodes@.len() && !path.skip(pos).contains(x) ==> self.nodes[x]
                        == t1.nodes[x],
            decreases cur,
        {
            proof {
                assert(pos >= 1) by {
                    if pos == 0 {
                        assert(path[0] == cur);
                    }
                }
                assert(t1.nodes[path[pos]].parent == Some(path[pos - 1] as usize));
                assert(self.nodes[cur as int].parent == t1.nodes[cur as int].parent);
            }
            let p = self.nodes[cur].parent.unwrap();
            proof {
                assert(p == path[pos - 1]);
                assert(p < cur);
                assert(!path.skip(pos).contains(p as int)) by {
                    if path.skip(pos).contains(p as int) {
                        let j = choose|j: int|
                            0 <= j < path.skip(pos).len() && path.skip(pos)[j] == p as int;
                        assert(path[j + pos] == p as int);
                        assert(path[pos - 1] < path[j + pos]);
                    }
                }
                assert(self.nodes[p as int] == t1.nodes[p as int]);
                assert(t1.node_wf(p as int));
            }
            self.update_node(p, result);
            cur = p;
            proof {
                pos = pos - 1;
                assert forall|x: int|
                    0 <= x < t1.nodes@.len() && !path.skip(pos).contains(x) implies self.nodes[x]
                    == t1.nodes[x] by {
                    assert(!path.skip(pos + 1).contains(x)) by {
                        if path.skip(pos + 1).contains(x) {
                            let j = choose|j: int|
                                0 <= j < path.skip(pos + 1).len() && #[trigger] path.skip(
                                    pos + 1,
                                )[j] == x;
                            assert(path[j + pos + 1] == x);
                            assert(path.skip(pos)[j + 1] == x);
                        }
                    }
                    assert(x != p as int) by {
                        if x == p as int {
                            assert(path.skip(pos)[0] == path[pos]);
                        }
                    }
                }
                assert forall|k: int|
                    pos <= k < path.len() implies self.nodes[#[trigger] path[k]]
                    == Self::spec_updated(t1.nodes[path[k]], result.0@) by {
                    if k == pos {
                        assert(path[k] == p as int);
                    }
                }
            }
        }
        proof {
            assert(pos == 0) by {
                if pos > 0 {
                    assert(path[0] < path[pos]);
                }
            }
            assert(forall|k: int| 0 <= k < path.len() ==> path.skip(0)[k] == path[k]);
            assert(path.skip(0) =~= path);
            Self::lemma_backprop_restores(t1, *self, path, from, result.0@);
        }
    }

    /// What the path looks like in a well-formed tree: used as the shared
    /// precondition of the backpropagation lemmas.
    pub open spec fn path_shape(t1: Self, path: Seq<int>, from: usize) -> bool {
        &&& path.len() >= 2
        &&& path[0] == 0
        &&& path.last() == from
        &&& (forall|a: int, b: int| 0 <= a < b < path.len() ==> #[trigger] path[a] < #[trigger] path[b])
        &&& (forall|k: int| 0 <= k < path.len() ==> 0 <= #[trigger] path[k] <= from)
        &&& (forall|k: int|
            1 <= k < path.len() ==> t1.nodes[#[trigger] path[k]].parent == Some(
                path[k - 1] as usize,
            ))
    }

    /// One node of `t1` was expanded into `t2`: the arena gained exactly
    /// one child with zero statistics whose parent link names the expanded
    /// node, the expanded node kept its statistics and state, and every
    /// other node is untouched.
    pub open spec fn spec_expanded(t1: Self, t2: Self) -> bool {
        &&& t2.nodes@.len() == t1.nodes@.len() + 1
    &&& exists|node: int|
        #![trigger t2.nodes@[node].parent]
        {
            &&& 0 <= node < t1.nodes@.len()
            &&& (forall|x: int|
                0 <= x < t1.nodes@.len() && x != node ==> t2.nodes@[x] == t1.nodes@[x])
            &&& t2.nodes@[node].visits == t1.nodes@[node].visits
            &&& t2.nodes@[node].wins == t1.nodes@[node].wins
            &&& t2.nodes@[node].state == t1.nodes@[node].state
            &&& t2.nodes@[t1.nodes@.len() as int].visits == 0
            &&& t2.nodes@[t1.nodes@.len() as int].wins == 0
            &&& t2.nodes@[t1.nodes@.len() as int].parent == Some(node as usize)
        }
    }

    /// How one search cycle changed the tree: after at most one expansion,
    /// exactly one playout outcome was recorded — on every node of the
    /// root chain of one worked node, and nowhere else, each node on the
    /// chain gaining one visit and that outcome's win credit.
    pub open spec fn spec_iteration_effect(t1: Self, t2: Self) -> bool {
        exists|mid: Self, from: int, w: Seq<T::P>|
            #![trigger Self::backprop_effect(mid, t2, mid.spec_path(from), w)]
            {
                &&& (mid == t1 || Self::spec_expanded(t1, mid))
                &&& 1 <= from < mid.nodes@.len()
                &&& Self::backprop_effect(mid, t2, mid.spec_path(from), w)
            }
    }

    /// How backpropagation changed the node vector: every path node was
    /// updated with the outcome, every other node is untouched.
    pub open spec fn backprop_effect(t1: Self, t2: Self, path: Seq<int>, winners: Seq<T::P>) -> bool {
        &&& t2.nodes@.len() == t1.nodes@.len()
        &&& (forall|k: int|
            0 <= k < path.len() ==> t2.nodes[#[trigger] path[k]] == Self::spec_updated(
                t1.nodes[path[k]],
                winners,
            ))
        &&& (forall|x: int|
            0 <= x < t1.nodes@.len() && !path.contains(x) ==> t2.nodes[x] == t1.nodes[x])
    }

    /// The credit of one outcome is between nothing and a whole win.
    proof fn lemma_credit_bounds(p: T::P, winners: Seq<T::P>)
        ensures
            0 <= spec_credit(p, winners) <= WIN_UNIT,
    {
        if winners.contains(p) {
            assert(winners.len() >= 1);
            vstd::arithmetic::div_mod::lemma_div_pos_is_pos(WIN_UNIT as int, winners.len() as int);
            vstd::arithmetic::div_mod::lemma_div_nonincreasing(
                WIN_UNIT as int,
                winners.len() as int,
            );
        }
    }

    /// Recording one outcome on an in-range node neither overflows nor
    /// breaks the win bound.
    proof fn lemma_updated_fits(n: SearchNode<T>, root_visits: u64, winners: Seq<T::P>)
        requires
            n.wins <= n.visits * WIN_UNIT,
            n.visits <= root_visits,
            root_visits < VISIT_LIMIT,
        ensures
            n.visits + 1 <= u64::MAX,
            n.wins + spec_credit(n.player_just_moved, winners) <= u64::MAX,
            Self::spec_updated(n, winners).visits == n.visits + 1,
            Self::spec_updated(n, winners).wins == n.wins + spec_credit(
                n.player_just_moved,
                winners,
            ),
            Self::spec_updated(n, winners).wins <= Self::spec_updated(n, winners).visits
                * WIN_UNIT,
    {
        Self::lemma_credit_bounds(n.player_just_moved, winners);
        let v = n.visits as int;
        assert(v * WIN_UNIT + WIN_UNIT == (v + 1) * WIN_UNIT) by (nonlinear_arith);
        assert((v + 1) * WIN_UNIT <= (VISIT_LIMIT as int) * (WIN_UNIT as int)) by (nonlinear_arith)
            requires
                v + 1 <= VISIT_LIMIT,
        ;
    }

    /// Backpropagating along a root-to-node path restores local node
    /// well-formedness everywhere.
    #[verifier::spinoff_prover]
    #[verifier::rlimit(50)]
    proof fn lemma_backprop_nodes_wf(t1: Self, t2: Self, path: Seq<int>, from: usize, winners: Seq<T::P>)
        requires
            t1.nodes_wf(),
            1 <= from < t1.nodes@.len(),
            t1.nodes[0].visits < VISIT_LIMIT,
            Self::path_shape(t1, path, from),
            Self::backprop_effect(t1, t2, path, winners),
        ensures
            t2.nodes_wf(),
            t2.nodes[0].visits == t1.nodes[0].visits + 1,
    {
        assert(path.contains(0int)) by {
            assert(path[0] == 0);
        }
        assert(t1.node_wf(0));
        Self::lemma_updated_fits(t1.nodes[0], t1.nodes[0].visits, winners);
        assert(t2.nodes[0].visits == t1.nodes[0].visits + 1);
        assert forall|x: int| 0 <= x < t2.nodes@.len() implies t2.node_wf(x) by {
            assert(t1.node_wf(x));
            Self::lemma_updated_fits(t1.nodes[x], t1.nodes[0].visits, winners);
            if path.contains(x) {
                let k = choose|k: int| 0 <= k < path.len() && #[trigger] path[k] == x;
                assert(t2.nodes[x] == Self::spec_updated(t1.nodes[x], winners));
            } else {
                assert(t2.nodes[x] == t1.nodes[x]);
            }
            assert forall|k: int|
                0 <= k < t1.nodes[x].children@.len() implies t2.nodes[#[trigger] t1.nodes[x].children@[k] as int].last_move
                == t1.nodes[t1.nodes[x].children@[k] as int].last_move
                && t2.nodes[t1.nodes[x].children@[k] as int].parent
                == t1.nodes[t1.nodes[x].children@[k] as int].parent by {
                let cc = t1.nodes[x].children@[k] as int;
                assert(0 <= cc < t1.nodes@.len());
                if path.contains(cc) {
                    let kk = choose|kk: int| 0 <= kk < path.len() && #[trigger] path[kk] == cc;
                    assert(t2.nodes[cc] == Self::spec_updated(t1.nodes[cc], winners));
                } else {
                    assert(t2.nodes[cc] == t1.nodes[cc]);
                }
            }
            assert(t2.child_moves(x) =~= t1.child_moves(x));
            if x != 0 {
                let p = t1.nodes[x].parent->0;
                assert(0 <= p < t1.nodes@.len());
                if path.contains(p as int) {
                    let kk = choose|kk: int| 0 <= kk < path.len() && #[trigger] path[kk] == p as int;
                    assert(t2.nodes[p as int] == Self::spec_updated(t1.nodes[p as int], winners));
                } else {
                    assert(t2.nodes[p as int] == t1.nodes[p as int]);
                }
                assert(t2.nodes[p as int].children == t1.nodes[p as int].children);
            }
        }
    }

    /// Backpropagating along a root-to-node path restores the root's
    /// visit accounting and the visit positivity, so the whole invariant.
    #[verifier::spinoff_prover]
    #[verifier::rlimit(50)]
    proof fn lemma_backprop_restores(t1: Self, t2: Self, path: Seq<int>, from: usize, winners: Seq<T::P>)
        requires
            t1.nodes_wf(),
            1 <= from < t1.nodes@.len(),
            t1.nodes[0].visits < VISIT_LIMIT,
            forall|x: int|
                1 <= x < t1.nodes@.len() && x != from ==> t1.nodes[x].visits >= 1,
            t1.nodes[0].visits == t1.child_visit_sum(0),
            Self::path_shape(t1, path, from),
            Self::backprop_effect(t1, t2, path, winners),
        ensures
            t2.wf(),
            t2.nodes[0].visits == t1.nodes[0].visits + 1,
            forall|x: int|
                0 <= x < t1.nodes@.len() ==> t2.nodes[x].state == t1.nodes[x].state
                    && t2.nodes[x].children == t1.nodes[x].children,
    {
        Self::lemma_backprop_nodes_wf(t1, t2, path, from, winners);
        assert(path.contains(from as int)) by {
            assert(path.last() == from);
        }
        assert forall|x: int| 1 <= x < t2.nodes@.len() implies t2.nodes[x].visits >= 1 by {
            if path.contains(x) {
                let k = choose|k: int| 0 <= k < path.len() && #[trigger] path[k] == x;
                assert(t2.nodes[x] == Self::spec_updated(t1.nodes[x], winners));
                assert(t1.node_wf(x));
                Self::lemma_updated_fits(t1.nodes[x], t1.nodes[0].visits, winners);
            } else {
                assert(t2.nodes[x] == t1.nodes[x]);
                assert(x != from);
            }
        }
        assert forall|x: int|
            0 <= x < t1.nodes@.len() implies t2.nodes[x].state == t1.nodes[x].state
            && t2.nodes[x].children == t1.nodes[x].children by {
            if path.contains(x) {
                let k = choose|k: int| 0 <= k < path.len() && #[trigger] path[k] == x;
                assert(t2.nodes[x] == Self::spec_updated(t1.nodes[x], winners));
            }
        }
        // The root's visit sum over its children grew by exactly one: the
        // path's second entry is a child of the root, and it is the only
        // path entry among the root's children.
        let c = path[1];
        assert(t1.nodes[c].parent == Some(path[0] as usize));
        assert(t1.node_wf(c));
        assert(t1.nodes[0].children@.contains(c as usize));
        assert(t2.nodes[c].visits == t1.nodes[c].visits + 1);
        assert forall|k: int|
            0 <= k < t1.nodes[0].children@.len() && t1.nodes[0].children@[k] != c as usize implies
            t2.nodes[#[trigger] t1.nodes[0].children@[k] as int].visits
            == t1.nodes[t1.nodes[0].children@[k] as int].visits by {
            let cc = t1.nodes[0].children@[k] as int;
            assert(t1.node_wf(0));
            assert(0 <= cc < t1.nodes@.len());
            assert(!path.contains(cc)) by {
                if path.contains(cc) {
                    let m = choose|m: int| 0 <= m < path.len() && #[trigger] path[m] == cc;
                    assert(t1.node_wf(0));
                    assert(cc > 0);
                    assert(m != 0) by {
                        if m == 0 {
                            assert(path[0] == 0);
                        }
                    }
                    assert(t1.nodes[path[m]].parent == Some(path[m - 1] as usize));
                    assert(t1.nodes[cc].parent == Some(0usize));
                    assert(path[m - 1] == 0);
                    assert(m - 1 == 0) by {
                        if m - 1 > 0 {
                            assert(path[0] < path[m - 1]);
                        }
                    }
                }
            }
            assert(t2.nodes[cc] == t1.nodes[cc]);
        }
        assert(t1.node_wf(0));
        Self::lemma_sum_bump(t1.nodes@, t2.nodes@, t1.nodes[0].children@, c as usize);
        assert(t2.nodes[0].children@ == t1.nodes[0].children@);
        assert(t2.child_visit_sum(0) == t1.child_visit_sum(0) + 1);
    }

    /// The node the selection phase stops at when descending from `cur`:
    /// while a node has no untried moves but has children, step to its
    /// most promising child.
    pub open spec fn spec_descend(self, cur: int) -> int
        decreases self.nodes@.len() - cur,
    {
        if 0 <= cur < self.nodes@.len() && self.nodes[cur].untried_moves@.len() == 0
            && self.nodes[cur].children@.len() > 0 {
            let nxt = Self::spec_most_promising(
                self.nodes@,
                self.nodes[cur].children@,
                self.nodes[cur].visits,
            ) as int;
            if cur < nxt < self.nodes@.len() {
                self.spec_descend(nxt)
            } else {
                cur
            }
        } else {
            cur
        }
    }

    /// The selection phase: from the root, descend through most promising
    /// children until reaching a node with untried moves or no children.
    fn best_unexplored_node(&self) -> (r: usize)
        requires
            self.wf(),
            self.nodes[0].visits <= VISIT_LIMIT,
        ensures
            r < self.nodes@.len(),
            self.nodes[r as int].untried_moves@.len() > 0 || self.nodes[r as int].children@.len()
                == 0,
            r == self.spec_descend(0),
    {
        let mut cur: usize = 0;
        while self.nodes[cur].untried_moves.len() == 0 && self.nodes[cur].children.len() > 0
            invariant
                self.wf(),
                self.nodes[0].visits <= VISIT_LIMIT,
                cur < self.nodes@.len(),
                self.spec_descend(0) == self.spec_descend(cur as int),
            decreases self.nodes@.len() - cur,
        {
            proof {
                assert(self.node_wf(cur as int));
            }
            let next = self.select_most_promising_child(cur);
            proof {
                let j = choose|j: int|
                    0 <= j < self.nodes[cur as int].children@.len()
                        && self.nodes[cur as int].children@[j] == next;
                assert(next > cur);
                assert(self.spec_descend(cur as int) == self.spec_descend(next as int));
            }
            cur = next;
        }
        proof {
            assert(self.spec_descend(cur as int) == cur);
        }
        cur
    }

    /// What `find_best_move` promises of its recommendation: it is the
    /// labelled move of a most-visited root child (the robust-child rule)
    /// of a well-formed search tree that was grown over exactly the given
    /// root state, ran the full iteration budget, and kept within the
    /// node bound.
    pub open spec fn spec_recommends(root_state: T, max_iterations: u32, r: T::M) -> bool {
        exists|t: SearchTree<T>|
            #![trigger t.wf()]
            {
                &&& t.wf()
                &&& t.nodes@[0].state == root_state
                &&& t.nodes@[0].visits == max_iterations
                &&& t.nodes@.len() <= max_iterations + 1
                &&& t.nodes@[0].children@.len() >= 1
                &&& r == t.nodes@[Self::spec_most_visited(t.nodes@, t.nodes@[0].children@) as int].last_move->0
            }
    }

    /// Law: in a well-formed tree, the root's visit counter equals the sum
    /// of its children's visit counters — every playout counted at the root
    /// passed through exactly one root child.  Together with the counter
    /// behaviour of `run_iteration` (one more root visit per cycle), the sum
    /// of visits over the root's children equals the number of cycles run.
    pub proof fn lemma_root_visit_accounting(t: SearchTree<T>)
        requires
            t.wf(),
        ensures
            t.nodes[0].visits == t.child_visit_sum(0),
    {
    }

    /// Law: an unvisited root has no children, so a search that runs no
    /// iterations has nothing to recommend — which is why the engine's
    /// contract requires an iteration budget of at least one and declares
    /// a zero-iteration search unsupported.
    pub proof fn lemma_zero_iterations_unsupported(t: SearchTree<T>)
        requires
            t.wf(),
            t.nodes[0].visits == 0,
        ensures
            t.nodes[0].children@.len() == 0,
    {
        if t.nodes[0].children@.len() > 0 {
            let c = t.nodes[0].children@[0];
            assert(t.node_wf(0));
            assert(t.nodes[c as int].visits >= 1);
            Self::lemma_sum_lower(t.nodes@, t.nodes[0].children@, 0);
        }
    }

    /// Law: no node's win credit ever exceeds one whole win per visit —
    /// each playout adds one visit and at most `WIN_UNIT` win units.
    pub proof fn lemma_win_credit_bounded(t: SearchTree<T>, i: int)
        requires
            t.wf(),
            0 <= i < t.nodes@.len(),
        ensures
            t.nodes[i].wins <= t.nodes[i].visits * WIN_UNIT,
    {
        assert(t.node_wf(i));
    }

    /// The statistics rows of the children of node `i`, in child order.
    pub open spec fn spec_child_stats(self, i: int) -> Seq<MoveStat<T::M>> {
        Seq::new(
            self.nodes[i].children@.len(),
            |k: int|
                MoveStat {
                    last_move: self.nodes[self.nodes[i].children@[k] as int].last_move->0,
                    wins: self.nodes[self.nodes[i].children@[k] as int].wins,
                    visits: self.nodes[self.nodes[i].children@[k] as int].visits,
                },
        )
    }

    /// The per-child statistics for a diagnostics dump, in child order: the
    /// move, the scaled win credit, and the visit count of each child of
    /// node `i`.  Purely observational.
    pub fn child_move_stats(&self, i: usize) -> (r: Vec<MoveStat<T::M>>)
        requires
            self.nodes_wf(),
            i < self.nodes@.len(),
        ensures
            r@ == self.spec_child_stats(i as int),
            r@.len() == self.nodes[i as int].children@.len(),
            forall|k: int|
                0 <= k < r@.len() ==> {
                    let c = self.nodes[i as int].children@[k] as int;
                    #[trigger] r@[k].last_move == self.nodes[c].last_move->0 && r@[k].wins
                        == self.nodes[c].wins && r@[k].visits == self.nodes[c].visits
                },
    {
        let cs = &self.nodes[i].children;
        let mut r: Vec<MoveStat<T::M>> = Vec::new();
        let mut k: usize = 0;
        while k < cs.len()
            invariant
                self.nodes_wf(),
                i < self.nodes@.len(),
                cs == self.nodes[i as int].children,
                k <= cs@.len(),
                r@.len() == k,
                forall|j: int| 0 <= j < k ==> #[trigger] r@[j] == self.spec_child_stats(i as int)[j],
            decreases cs@.len() - k,
        {
            proof {
                assert(self.node_wf(i as int));
                assert(self.node_wf(cs@[k as int] as int));
            }
            let c = cs[k];
            let stat = MoveStat {
                last_move: T::clone_move(self.nodes[c].last_move.as_ref().unwrap()),
                wins: self.nodes[c].wins,
                visits: self.nodes[c].visits,
            };
            r.push(stat);
            proof {
                assert(r@[k as int] == self.spec_child_stats(i as int)[k as int]);
            }
            k = k + 1;
        }
        proof {
            assert(r@ =~= self.spec_child_stats(i as int));
        }
        r
    }

    /// The per-child statistics ordered by falling win rate, for the
    /// diagnostics dump: a permutation of `child_move_stats`, with rates
    /// compared exactly by cross multiplication rather than floating-point
    /// division.
    pub fn sorted_child_move_stats(&self, i: usize) -> (r: Vec<MoveStat<T::M>>)
        requires
            self.nodes_wf(),
            self.visits_pos(),
            i < self.nodes@.len(),
        ensures
            r@.to_multiset() == self.spec_child_stats(i as int).to_multiset(),
            r@.len() == self.nodes[i as int].children@.len(),
            forall|k1: int, k2: int|
                0 <= k1 <= k2 < r@.len() ==> spec_rate_ge(
                    #[trigger] r@[k1].wins,
                    r@[k1].visits,
                    #[trigger] r@[k2].wins,
                    r@[k2].visits,
                ),
    {
        broadcast use vstd::seq_lib::group_to_multiset_ensures;
        broadcast use vstd::multiset::group_multiset_axioms;

        let mut pool = self.child_move_stats(i);
        let ghost all = self.spec_child_stats(i as int);
        let total = pool.len();
        let mut r: Vec<MoveStat<T::M>> = Vec::new();
        proof {
            assert(r@.to_multiset() =~= Multiset::<MoveStat<T::M>>::empty());
            assert(r@.to_multiset().add(pool@.to_multiset()) =~= all.to_multiset());
            assert forall|k: int| 0 <= k < pool@.len() implies #[trigger] pool@[k].visits >= 1 by {
                assert(self.node_wf(i as int));
                assert(self.nodes[i as int].children@[k] >= 1);
            }
        }
        while pool.len() > 0
            invariant
                r@.len() + pool@.len() == total,
                total == all.len(),
                r@.to_multiset().add(pool@.to_multiset()) == all.to_multiset(),
                forall|k1: int, k2: int|
                    0 <= k1 <= k2 < r@.len() ==> spec_rate_ge(
                        #[trigger] r@[k1].wins,
                        r@[k1].visits,
                        #[trigger] r@[k2].wins,
                        r@[k2].visits,
                    ),
                forall|k: int, j: int|
                    0 <= k < r@.len() && 0 <= j < pool@.len() ==> spec_rate_ge(
                        #[trigger] r@[k].wins,
                        r@[k].visits,
                        #[trigger] pool@[j].wins,
                        pool@[j].visits,
                    ),
                forall|k: int| 0 <= k < pool@.len() ==> #[trigger] pool@[k].visits >= 1,
                forall|k: int| 0 <= k < r@.len() ==> #[trigger] r@[k].visits >= 1,
            decreases pool@.len(),
        {
            broadcast use vstd::seq_lib::group_to_multiset_ensures;
            broadcast use vstd::multiset::group_multiset_axioms;

            let mut best: usize = 0;
            let mut m: usize = 1;
            while m < pool.len()
                invariant
                    best < pool@.len(),
                    m <= pool@.len(),
                    forall|k: int| 0 <= k < pool@.len() ==> #[trigger] pool@[k].visits >= 1,
                    forall|j: int|
                        0 <= j < m ==> spec_rate_ge(
                            pool@[best as int].wins,
                            pool@[best as int].visits,
                            #[trigger] pool@[j].wins,
                            pool@[j].visits,
                        ),
                decreases pool@.len() - m,
            {
                if !rate_ge(&pool[best], &pool[m]) {
                    proof {
                        assert forall|j: int|
                            0 <= j < m implies spec_rate_ge(
                            pool@[m as int].wins,
                            pool@[m as int].visits,
                            #[trigger] pool@[j].wins,
                            pool@[j].visits,
                        ) by {
                            lemma_rate_ge_trans(
                                pool@[m as int].wins,
                                pool@[m as int].visits,
                                pool@[best as int].wins,
                                pool@[best as int].visits,
                                pool@[j].wins,
                                pool@[j].visits,
                            );
                        }
                    }
                    best = m;
                }
                m = m + 1;
            }
            let ghost pre_pool = pool@;
            let ghost pre_r = r@;
            let x = pool.remove(best);
            r.push(x);
            proof {
                assert(r@ == pre_r.push(x));
                assert(pool@ =~= pre_pool.remove(best as int));
                assert(r@.to_multiset().add(pool@.to_multiset()) =~= all.to_multiset()) by {
                    assert(pre_pool.remove(best as int).to_multiset() =~= pre_pool.to_multiset().remove(
                        x,
                    ));
                    assert(pre_r.push(x).to_multiset() =~= pre_r.to_multiset().insert(x));
                }
                assert(forall|j: int|
                    0 <= j < pool@.len() ==> pool@[j] == pre_pool[j] || pool@[j] == pre_pool[j + 1]);
            }
        }
        r
    }
}

/// Whether the first statistics row's win rate is at least the second's:
/// `aw / av >= bw / bv`, compared exactly by cross multiplication.
pub open spec fn spec_rate_ge(aw: u64, av: u64, bw: u64, bv: u64) -> bool {
    aw * bv >= bw * av
}

/// Evaluates `spec_rate_ge` exactly (the products are taken at double
/// width, so no bound on the statistics is needed).
fn rate_ge<M>(a: &MoveStat<M>, b: &MoveStat<M>) -> (r: bool)
    ensures
        r == spec_rate_ge(a.wins, a.visits, b.wins, b.visits),
{
    proof {
        assert((a.wins as int) * (b.visits as int) <= 0xFFFF_FFFF_FFFF_FFFF
            * 0xFFFF_FFFF_FFFF_FFFF) by (nonlinear_arith)
            requires
                a.wins <= 0xFFFF_FFFF_FFFF_FFFFu64,
                b.visits <= 0xFFFF_FFFF_FFFF_FFFFu64,
        ;
        assert((b.wins as int) * (a.visits as int) <= 0xFFFF_FFFF_FFFF_FFFF
            * 0xFFFF_FFFF_FFFF_FFFF) by (nonlinear_arith)
            requires
                b.wins <= 0xFFFF_FFFF_FFFF_FFFFu64,
                a.visits <= 0xFFFF_FFFF_FFFF_FFFFu64,
        ;
    }
    (a.wins as u128) * (b.visits as u128) >= (b.wins as u128) * (a.visits as u128)
}

/// Rate comparison is transitive over rows that have been visited.
proof fn lemma_rate_ge_trans(aw: u64, av: u64, bw: u64, bv: u64, cw: u64, cv: u64)
    requires
        av >= 1,
        bv >= 1,
        cv >= 1,
        spec_rate_ge(aw, av, bw, bv),
        spec_rate_ge(bw, bv, cw, cv),
    ensures
        spec_rate_ge(aw, av, cw, cv),
{
    assert(aw * cv >= cw * av) by (nonlinear_arith)
        requires
            av >= 1,
            bv >= 1,
            cv >= 1,
            aw * bv >= bw * av,
            bw * cv >= cw * bv,
    ;
}

/// One child's statistics as reported by `child_move_stats`: the move that
/// leads to the child, its win credit in `1 / WIN_UNIT` units, and its visit
/// count.
pub struct MoveStat<M> {
    pub last_move: M,
    pub wins: u64,
    pub visits: u64,
}

/// Law: a tied outcome between two winners credits a winning node exactly
/// half a win.
pub proof fn lemma_tie_credit_halves<P>(p: P, winners: Seq<P>)
    requires
        winners.len() == 2,
        winners.contains(p),
    ensures
        spec_credit(p, winners) == WIN_UNIT / 2,
{
}

/// One uniformly random legal move of `state`, `None` exactly when there is
/// none.
fn choose_random_move<T: SearchableState>(state: &T, rng: &mut WeakRng) -> (r: Option<T::M>)
    requires
        state.inv(),
    ensures
        r matches Some(m) ==> state.spec_moves().contains(m),
        r is None <==> state.spec_moves().len() == 0,
{
    let mut moves = state.all_moves();
    if moves.len() == 0 {
        None
    } else {
        let idx = rng.gen_index(moves.len());
        let m = moves.swap_remove(idx);
        Some(m)
    }
}

/// Longest rollout the engine will run before giving up on a playout.  A
/// searchable domain promises that exhausting the legal moves concludes the
/// game; a playout that is still unfinished after this many moves is treated
/// as an outcome without winners rather than an endless loop.
pub const MAX_ROLLOUT_MOVES: u64 = 1000000;

/// The rollout phase: applies uniformly random legal moves in place until
/// none is left (or the rollout budget is exhausted), creating no tree
/// nodes.  The flag says whether the playout finished: when it is set the
/// returned state has no legal moves and the game has concluded; when it
/// is clear the budget ran out first.
fn simulate_until_terminal<T: SearchableState>(state: T, rng: &mut WeakRng, ctx: &mut T::C) -> (r:
    (T, bool))
    requires
        state.inv(),
    ensures
        r.0.inv(),
        r.1 ==> r.0.spec_moves().len() == 0 && r.0.is_terminal(),
{
    let mut s = state;
    let mut fuel: u64 = MAX_ROLLOUT_MOVES;
    while fuel > 0
        invariant
            s.inv(),
        decreases fuel,
    {
        match choose_random_move(&s, rng) {
            None => {
                proof {
                    s.lemma_state_contract();
                }
                return (s, true);
            },
            Some(m) => {
                s.make_move_mut(m, ctx);
            },
        }
        fuel = fuel - 1;
    }
    (s, false)
}

impl<T: SearchableState> SearchTree<T> {
    /// One select / expand / simulate / backpropagate cycle.  Adds at most
    /// one node, gives the root exactly one more visit, and leaves the tree
    /// well-formed with at least one root child.
    pub fn run_iteration(&mut self, ctx: &mut T::C, rng: &mut WeakRng)
        requires
            old(self).wf(),
            old(self).nodes[0].visits < VISIT_LIMIT,
            old(self).nodes@.len() < usize::MAX,
        ensures
            final(self).wf(),
            old(self).nodes@.len() <= final(self).nodes@.len() <= old(self).nodes@.len() + 1,
            final(self).nodes[0].visits == old(self).nodes[0].visits + 1,
            final(self).nodes[0].state == old(self).nodes[0].state,
            final(self).nodes[0].children@.len() >= 1,
            Self::spec_iteration_effect(*old(self), *final(self)),
    {
        let ghost t0 = *old(self);
        let ghost mut expanded_from: Option<usize> = None;
        // Select
        let mut cur = self.best_unexplored_node();
        proof {
            broadcast use vstd::seq_lib::group_to_multiset_ensures;

            assert(self.node_wf(cur as int));
            assert(self.node_wf(0));
            if cur == 0 {
                assert(self.nodes[0].untried_moves@.len() + self.child_moves(0).len() >= 1) by {
                    assert(self.nodes[0].untried_moves@.to_multiset().len()
                        == self.nodes[0].untried_moves@.len());
                    assert(self.child_moves(0).to_multiset().len() == self.child_moves(0).len());
                    assert(self.nodes[0].untried_moves@.to_multiset().add(
                        self.child_moves(0).to_multiset(),
                    ).len() >= 1);
                }
                assert(self.child_moves(0).len() == self.nodes[0].children@.len());
            }
        }
        // Expand
        if self.nodes[cur].untried_moves.len() > 0 {
            let ghost t_before = *self;
            let n_untried = self.nodes[cur].untried_moves.len();
            let move_idx = rng.gen_index(n_untried);
            let parent_idx = cur;
            cur = self.expand_node_by_move(parent_idx, move_idx, ctx);
            proof {
                expanded_from = Some(parent_idx);
                // The expansion left every counter in place and added one
                // zero-visit child, so the root's child sum is unchanged.
                assert(self.nodes[0].visits == t_before.nodes[0].visits);
                if parent_idx == 0 {
                    assert(self.nodes[0].children@ == t_before.nodes[0].children@.push(cur));
                    assert(self.nodes[0].children@.drop_last() =~= t_before.nodes[0].children@);
                    Self::lemma_sum_congruent(
                        t_before.nodes@,
                        self.nodes@,
                        t_before.nodes[0].children@,
                    );
                    assert(self.child_visit_sum(0) == Self::sum_visits(
                        self.nodes@,
                        t_before.nodes[0].children@,
                    ) + self.nodes[cur as int].visits);
                } else {
                    assert(self.nodes[0].children@ == t_before.nodes[0].children@);
                    assert(t_before.node_wf(0));
                    Self::lemma_sum_congruent(
                        t_before.nodes@,
                        self.nodes@,
                        t_before.nodes[0].children@,
                    );
                }
                assert(self.nodes[0].visits == self.child_visit_sum(0));
            }
        }
        proof {
            assert(cur != 0) by {
                if cur == 0 {
                    assert(self.nodes[0].untried_moves@.len() > 0
                        || self.nodes[0].children@.len() == 0);
                }
            }
            assert(self.node_wf(cur as int));
        }
        let ghost mid = *self;
        proof {
            match expanded_from {
                Some(p) => {
                    assert(mid.nodes@[p as int].parent == t0.nodes@[p as int].parent);
                    assert(Self::spec_expanded(t0, mid)) by {
                        assert(mid.nodes@[t0.nodes@.len() as int].parent == Some(p));
                    }
                },
                None => {
                    assert(mid == t0);
                },
            }
        }
        // Simulate (rollout)
        let start_state = self.nodes[cur].state.clone_state();
        let (end_state, rollout_done) = simulate_until_terminal(start_state, rng, ctx);
        let result = if rollout_done {
            end_state.game_result().unwrap()
        } else {
            // The playout outlived its budget, which the state contract
            // says cannot happen (exhausting the legal moves concludes the
            // game).  Verified code cannot abort, so the iteration is
            // counted with an outcome that credits nobody.
            Winners(Vec::new())
        };
        // Backpropagate
        self.backpropagate(cur, &result);
        proof {
            assert(Self::spec_iteration_effect(t0, *self)) by {
                assert(Self::backprop_effect(mid, *self, mid.spec_path(cur as int), result.0@));
                assert(1 <= cur < mid.nodes@.len());
            }
            assert(self.nodes[0].children@.len() >= 1) by {
                if t0.nodes[0].children@.len() == 0 {
                    assert(t0.nodes[0].untried_moves@.len() > 0) by {
                        broadcast use vstd::seq_lib::group_to_multiset_ensures;

                        assert(t0.node_wf(0));
                        assert(t0.nodes[0].untried_moves@.to_multiset().len()
                            == t0.nodes[0].untried_moves@.len());
                        assert(t0.child_moves(0).to_multiset().len() == t0.child_moves(0).len());
                        assert(t0.child_moves(0).len() == 0);
                        assert(t0.nodes[0].untried_moves@.to_multiset().add(
                            t0.child_moves(0).to_multiset(),
                        ).len() >= 1);
                    }
                }
            }
        }
    }
}

/// Builds and grows the search tree for `root_state` through exactly
/// `max_iterations` cycles, and returns it: the caller reads the
/// recommendation off the most visited root child, and may inspect the tree
/// for diagnostics.  The returned tree records `max_iterations` in the
/// root's visit counter and holds at most `max_iterations + 1` nodes: the
/// root plus at most one expansion per cycle, however long the rollouts
/// were.
pub fn search_tree<T: SearchableState>(
    root_state: T,
    max_iterations: u32,
    ctx: &mut T::C,
    rng: &mut WeakRng,
) -> (t: SearchTree<T>)
    requires
        root_state.inv(),
        root_state.spec_moves().len() >= 1,
        root_state.spec_players().len() >= 1,
        max_iterations <= 0x4000_0000,
    ensures
        t.wf(),
        t.nodes[0].state == root_state,
        t.nodes[0].visits == max_iterations,
        t.nodes@.len() <= max_iterations + 1,
        max_iterations >= 1 ==> t.nodes[0].children@.len() >= 1,
{
    let mut t = SearchTree::new(root_state);
    let mut i: u32 = 0;
    while i < max_iterations
        invariant
            t.wf(),
            t.nodes[0].state == root_state,
            t.nodes[0].visits == i,
            t.nodes@.len() <= i + 1,
            i <= max_iterations <= 0x4000_0000,
            i >= 1 ==> t.nodes[0].children@.len() >= 1,
        decreases max_iterations - i,
    {
        t.run_iteration(ctx, rng);
        i = i + 1;
    }
    t
}

/// Runs a full search and recommends the move that leads to the root's most
/// visited child (the robust-child rule).  Every random draw comes from the
/// caller's generator, so a fixed seed yields a fixed recommendation.
///
/// The iteration budget must be at least one (a search with no iterations
/// has no explored child to recommend) and the root state must offer a move
/// and a player roster; searching a concluded state is a caller error.
pub fn find_best_move<T: SearchableState>(
    root_state: T,
    max_iterations: u32,
    ctx: &mut T::C,
    rng: &mut WeakRng,
) -> (r: T::M)
    requires
        root_state.inv(),
        root_state.spec_moves().len() >= 1,
        root_state.spec_players().len() >= 1,
        1 <= max_iterations <= 0x4000_0000,
    ensures
        root_state.spec_moves().contains(r),
        SearchTree::<T>::spec_recommends(root_state, max_iterations, r),
{
    let ghost root0 = root_state;
    let t = search_tree(root_state, max_iterations, ctx, rng);
    let best = t.most_visited_child(0);
    proof {
        broadcast use vstd::seq_lib::group_to_multiset_ensures;

        assert(t.node_wf(0));
        let j = choose|j: int|
            0 <= j < t.nodes[0].children@.len() && t.nodes[0].children@[j] == best;
        assert(t.child_moves(0)[j] == t.nodes[best as int].last_move->0);
        assert(t.child_moves(0).contains(t.nodes[best as int].last_move->0));
        assert(t.child_moves(0).to_multiset().count(t.nodes[best as int].last_move->0) > 0);
        assert(t.nodes[0].state.spec_moves().to_multiset() == t.nodes[0].untried_moves@.to_multiset().add(
            t.child_moves(0).to_multiset(),
        ));
        assert(t.nodes[0].state.spec_moves().to_multiset().count(
            t.nodes[best as int].last_move->0,
        ) > 0);
        assert(t.node_wf(best as int));
    }
    let m = T::clone_move(t.nodes[best].last_move.as_ref().unwrap());
    proof {
        assert(t.wf());
        assert(t.nodes@[0].state == root0);
        assert(m == t.nodes@[SearchTree::<T>::spec_most_visited(
            t.nodes@,
            t.nodes@[0].children@,
        ) as int].last_move->0);
        assert(SearchTree::<T>::spec_recommends(root0, max_iterations, m));
    }
    m
}

/// Whether `p` is one of the listed winners, by the domain's own player
/// equality.
fn winners_contain<T: SearchableState>(result: &Winners<T::P>, p: &T::P) -> (r: bool)
    ensures
        r <==> result.0@.contains(*p),
{
    let n = result.0.len();
    let mut k: usize = 0;
    while k < n
        invariant
            n == result.0@.len(),
            k <= n,
            forall|j: int| 0 <= j < k ==> result.0@[j] != *p,
        decreases n - k,
    {
        if T::eq_player(&result.0[k], p) {
            return true;
        }
        k = k + 1;
    }
    false
}

} // verus!

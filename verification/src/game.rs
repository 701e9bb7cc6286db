//! The data model of the deck-building game and its pure rules queries.
//!
//! The mutable turn machinery (drawing, buying, resolving card effects) is
//! the rules collaborator that surrounds the search engine; what lives here
//! is the game state itself, its invariant, and the queries that automated
//! players and the scorer rely on: supply lookups, turn order, effect
//! targeting, and the construction of fresh games.

use vstd::prelude::*;

use crate::cards::{
    spec_all_valid, spec_cost, spec_valid_card, standard_piles, CardAction, CardIdentifier,
    CardType, DiscardEffect, EffectTarget, GainDestination, TrashFollowup, COPPER, ESTATE,
};
use crate::cards;
use crate::rng::WeakRng;
use crate::util::append_cards;

verus! {

/// The game ends when this many supply piles are empty.
pub const EMPTY_PILES_FOR_GAME_END: i32 = 3;

/// The hand size players draw up to.
pub const PLAYER_HAND_SIZE: usize = 5;

/// A player's all-card collections may not exceed this many cards; it keeps
/// every score far from the integer limits.
pub const MAX_PLAYER_CARDS: usize = 10_000_000;

#[derive(Clone, Copy, Debug, Eq, PartialEq, Structural)]
pub enum Phase {
    StartTurn,
    Action,
    BuyPlayTreasure,
    BuyPurchaseCard,
    Cleanup,
    EndTurn,
}

#[derive(Clone, Copy, Debug, Eq, PartialEq, Ord, PartialOrd, Structural)]
pub struct PlayerIdentifier(pub u8);

/// One instance of a played action, used to match a reaction (a revealed
/// Moat) to the attack it answers.  Replaying a card gives each play its
/// own identifier.
#[derive(Clone, Copy, Debug, Eq, PartialEq, Structural)]
pub struct ActionIdentifier(pub u32);

impl ActionIdentifier {
    pub fn new() -> (r: ActionIdentifier)
        ensures
            r.0 == 0,
    {
        ActionIdentifier(0)
    }

    pub fn increment(&self) -> (r: ActionIdentifier)
        requires
            self.0 < u32::MAX,
        ensures
            r.0 == self.0 + 1,
    {
        ActionIdentifier(self.0 + 1)
    }
}

pub struct Player {
    pub identifier: PlayerIdentifier,
    pub name: String,
    pub hand: Vec<CardIdentifier>,
    pub discard: Vec<CardIdentifier>,
    pub deck: Vec<CardIdentifier>,
}

impl Clone for Player {
    fn clone(&self) -> (r: Self)
        ensures
            r.identifier == self.identifier,
            r.name@ == self.name@,
            r.hand@ == self.hand@,
            r.discard@ == self.discard@,
            r.deck@ == self.deck@,
    {
        Player {
            identifier: self.identifier,
            name: self.name.clone(),
            hand: crate::util::copy_cards(&self.hand),
            discard: crate::util::copy_cards(&self.discard),
            deck: crate::util::copy_cards(&self.deck),
        }
    }
}

impl Player {
    /// Every card a player owns: hand, then deck, then discard pile.
    pub open spec fn spec_all_cards(self) -> Seq<CardIdentifier> {
        self.hand@ + self.deck@ + self.discard@
    }

    pub open spec fn wf(self) -> bool {
        &&& spec_all_valid(self.hand@)
        &&& spec_all_valid(self.deck@)
        &&& spec_all_valid(self.discard@)
        &&& self.hand@.len() + self.deck@.len() + self.discard@.len() <= MAX_PLAYER_CARDS
    }

    pub fn all_cards(&self) -> (r: Vec<CardIdentifier>)
        ensures
            r@ == self.spec_all_cards(),
    {
        let mut ret: Vec<CardIdentifier> = Vec::new();
        append_cards(&mut ret, &self.hand);
        append_cards(&mut ret, &self.deck);
        append_cards(&mut ret, &self.discard);
        proof {
            assert(Seq::<CardIdentifier>::empty() + self.hand@ =~= self.hand@);
        }
        ret
    }

    /// Draws `n` cards from the top of the deck into the hand.  When the
    /// deck runs short, the discard pile is shuffled into a fresh deck and
    /// the draw continues from it; if even that is not enough, the player
    /// draws whatever there is.  The player's cards are conserved: only
    /// their distribution over hand, deck and discard changes.
    pub fn draw_cards(&mut self, n: usize, ctx: &mut EvalContext)
        requires
            n >= 1,
            old(self).wf(),
        ensures
            final(self).wf(),
            final(self).identifier == old(self).identifier,
            final(self).name == old(self).name,
            final(self).spec_all_cards().to_multiset() == old(self).spec_all_cards().to_multiset(),
            final(self).hand@.take(old(self).hand@.len() as int) == old(self).hand@,
            final(self).hand@.len() == old(self).hand@.len() + (if n <= old(self).deck@.len()
                + old(self).discard@.len() {
                n as int
            } else {
                old(self).deck@.len() + old(self).discard@.len() as int
            }),
            old(self).deck@.len() >= n ==> final(self).discard == old(self).discard
                && final(self).deck@ == old(self).deck@.take(old(self).deck@.len() - n),
            old(self).deck@.len() < n ==> final(self).discard@.len() == 0,
    {
        broadcast use vstd::seq_lib::lemma_multiset_commutative;
        broadcast use vstd::seq_lib::group_to_multiset_ensures;
        broadcast use vstd::multiset::group_multiset_axioms;

        let ghost oldp = *old(self);
        if self.deck.len() >= n {
            let pivot = self.deck.len() - n;
            let mut drawn = self.deck.split_off(pivot);
            self.hand.append(&mut drawn);
            proof {
                assert(oldp.deck@.take(pivot as int) + oldp.deck@.subrange(
                    pivot as int,
                    oldp.deck@.len() as int,
                ) =~= oldp.deck@);
                assert(self.spec_all_cards().to_multiset() =~= oldp.spec_all_cards().to_multiset())
                    by {
                    assert(self.spec_all_cards() =~= (oldp.hand@ + oldp.deck@.subrange(
                        pivot as int,
                        oldp.deck@.len() as int,
                    )) + oldp.deck@.take(pivot as int) + oldp.discard@);
                }
                assert(self.hand@.take(oldp.hand@.len() as int) =~= oldp.hand@);
                broadcast use vstd::seq_lib::group_to_multiset_ensures;

                assert(self.spec_all_cards().len() == oldp.spec_all_cards().len()) by {
                    assert(self.spec_all_cards().to_multiset().len() == self.spec_all_cards().len());
                    assert(oldp.spec_all_cards().to_multiset().len() == oldp.spec_all_cards().len());
                }
                crate::util::lemma_valid_from_multiset(
                    oldp.spec_all_cards(),
                    self.spec_all_cards(),
                );
                lemma_parts_valid(*self);
            }
        } else {
            let mut first_draw = crate::util::copy_cards(&self.deck);
            crate::util::shuffle_cards(&mut self.discard, &mut ctx.rng);
            self.deck = crate::util::copy_cards(&self.discard);
            self.discard.clear();
            let ghost shuf = self.deck@;
            let second_n = if self.deck.len() < n - first_draw.len() {
                self.deck.len()
            } else {
                n - first_draw.len()
            };
            let pivot = self.deck.len() - second_n;
            let mut second_draw = self.deck.split_off(pivot);
            first_draw.append(&mut second_draw);
            self.hand.append(&mut first_draw);
            proof {
                assert(shuf.to_multiset() == oldp.discard@.to_multiset());
                assert(shuf.take(pivot as int) + shuf.subrange(pivot as int, shuf.len() as int)
                    =~= shuf);
                assert(self.hand@ =~= oldp.hand@ + (oldp.deck@ + shuf.subrange(
                    pivot as int,
                    shuf.len() as int,
                )));
                assert(self.spec_all_cards() =~= (oldp.hand@ + (oldp.deck@ + shuf.subrange(
                    pivot as int,
                    shuf.len() as int,
                ))) + shuf.take(pivot as int) + Seq::<CardIdentifier>::empty());
                assert(self.spec_all_cards().to_multiset() =~= oldp.spec_all_cards().to_multiset())
                    by {
                    assert(Seq::<CardIdentifier>::empty().to_multiset()
                        =~= vstd::multiset::Multiset::<CardIdentifier>::empty());
                    assert((shuf.subrange(pivot as int, shuf.len() as int).to_multiset()).add(
                        shuf.take(pivot as int).to_multiset(),
                    ) =~= shuf.to_multiset());
                    assert(oldp.spec_all_cards().to_multiset() =~= oldp.hand@.to_multiset().add(
                        oldp.deck@.to_multiset(),
                    ).add(oldp.discard@.to_multiset()));
                }
                assert(self.hand@.take(oldp.hand@.len() as int) =~= oldp.hand@);
                broadcast use vstd::seq_lib::group_to_multiset_ensures;

                assert(self.spec_all_cards().len() == oldp.spec_all_cards().len()) by {
                    assert(self.spec_all_cards().to_multiset().len() == self.spec_all_cards().len());
                    assert(oldp.spec_all_cards().to_multiset().len() == oldp.spec_all_cards().len());
                }
                crate::util::lemma_valid_from_multiset(
                    oldp.spec_all_cards(),
                    self.spec_all_cards(),
                );
                lemma_parts_valid(*self);
            }
        }
    }
}

impl Player {
    /// Moves the whole hand onto the discard pile.
    pub fn discard_hand(&mut self, _ctx: &mut EvalContext)
        ensures
            final(self).hand@.len() == 0,
            final(self).discard@ == old(self).discard@ + old(self).hand@,
            final(self).deck == old(self).deck,
            final(self).identifier == old(self).identifier,
            final(self).name == old(self).name,
            old(self).wf() ==> final(self).wf(),
    {
        let ghost oldp = *old(self);
        let mut hand: Vec<CardIdentifier> = Vec::new();
        core::mem::swap(&mut hand, &mut self.hand);
        append_cards(&mut self.discard, &hand);
        proof {
            if oldp.wf() {
                assert forall|k: int| 0 <= k < self.discard@.len() implies spec_valid_card(
                    #[trigger] self.discard@[k].0,
                ) by {
                    if k < oldp.discard@.len() {
                        assert(self.discard@[k] == oldp.discard@[k]);
                    } else {
                        assert(self.discard@[k] == oldp.hand@[k - oldp.discard@.len()]);
                    }
                }
            }
        }
    }
}

/// When every card a player owns is valid, so is each of the hand, deck
/// and discard lists.
proof fn lemma_parts_valid(p: Player)
    requires
        spec_all_valid(p.spec_all_cards()),
    ensures
        spec_all_valid(p.hand@),
        spec_all_valid(p.deck@),
        spec_all_valid(p.discard@),
{
    let all = p.spec_all_cards();
    assert forall|k: int| 0 <= k < p.hand@.len() implies spec_valid_card(
        #[trigger] p.hand@[k].0,
    ) by {
        assert(all[k] == p.hand@[k]);
    }
    assert forall|k: int| 0 <= k < p.deck@.len() implies spec_valid_card(
        #[trigger] p.deck@[k].0,
    ) by {
        assert(all[p.hand@.len() + k] == p.deck@[k]);
    }
    assert forall|k: int| 0 <= k < p.discard@.len() implies spec_valid_card(
        #[trigger] p.discard@[k].0,
    ) by {
        assert(all[p.hand@.len() + p.deck@.len() + k] == p.discard@[k]);
    }
}

#[derive(Clone, Copy, Debug, Eq, PartialEq, Structural)]
pub enum DecisionType {
    PlayAction,
    PlayTreasures,
    BuyCard,
    GainCard(GainDestination),
    DiscardCards(Option<DiscardEffect>),
    TrashCards(Option<TrashFollowup>),
    RevealReaction(ActionIdentifier),
}

/// A pending choice: which player decides, what kind of choice it is, the
/// cards offered, and how few (range start) up to how many (range end) may
/// be picked.
pub struct Decision {
    pub player: PlayerIdentifier,
    pub decision_type: DecisionType,
    pub choices: Vec<CardIdentifier>,
    pub range: (usize, usize),
}

impl Clone for Decision {
    fn clone(&self) -> (r: Self)
        ensures
            r.player == self.player,
            r.decision_type == self.decision_type,
            r.choices@ == self.choices@,
            r.range == self.range,
    {
        Decision {
            player: self.player,
            decision_type: self.decision_type,
            choices: crate::util::copy_cards(&self.choices),
            range: (self.range.0, self.range.1),
        }
    }
}

impl Decision {
    pub open spec fn wf(self) -> bool {
        &&& spec_all_valid(self.choices@)
        &&& self.range.0 <= self.range.1
        &&& self.range.1 <= self.choices@.len()
    }
}

/// A strategy that answers pending decisions.  `accepts` names the game
/// states an implementation can handle; callers establish it before asking
/// for a decision.
pub trait Decider {
    spec fn accepts(&self, g: &Game) -> bool;

    fn description(&self) -> String;

    fn make_decision(&mut self, g: &Game) -> (r: Vec<CardIdentifier>)
        requires
            old(self).accepts(g),
    ;
}

#[derive(Clone, Copy, Debug, Eq, PartialEq, Structural)]
pub enum QueuedEffect {
    ActionEffect(PlayerIdentifier, ActionIdentifier, CardAction),
    ReactOption(PlayerIdentifier, ActionIdentifier),
}

pub struct Game {
    pub turn: i32,
    pub active_player: PlayerIdentifier,
    pub phase: Phase,
    pub actions: i32,
    pub buys: i32,
    pub coins: i32,
    pub current_action_identifier: ActionIdentifier,
    pub piles: Vec<(CardIdentifier, i32)>,
    pub play_area: Vec<CardIdentifier>,
    pub trash_pile: Vec<CardIdentifier>,
    pub players: Vec<Player>,
    pub pending_decision: Option<Decision>,
    pub pending_effects: Vec<QueuedEffect>,
}

impl Clone for Game {
    fn clone(&self) -> (r: Self)
        ensures
            r.turn == self.turn,
            r.active_player == self.active_player,
            r.phase == self.phase,
            r.actions == self.actions,
            r.buys == self.buys,
            r.coins == self.coins,
            r.current_action_identifier == self.current_action_identifier,
            r.piles@ == self.piles@,
            r.play_area@ == self.play_area@,
            r.trash_pile@ == self.trash_pile@,
            r.players@.len() == self.players@.len(),
            (r.pending_decision is Some) == (self.pending_decision is Some),
            r.pending_effects@ == self.pending_effects@,
    {
        let mut players: Vec<Player> = Vec::new();
        let mut i: usize = 0;
        while i < self.players.len()
            invariant
                i <= self.players@.len(),
                players@.len() == i,
            decreases self.players@.len() - i,
        {
            players.push(self.players[i].clone());
            i = i + 1;
        }
        let mut piles: Vec<(CardIdentifier, i32)> = Vec::new();
        let mut j: usize = 0;
        while j < self.piles.len()
            invariant
                j <= self.piles@.len(),
                piles@ == self.piles@.take(j as int),
            decreases self.piles@.len() - j,
        {
            proof {
                assert(self.piles@.take(j + 1) =~= self.piles@.take(j as int).push(
                    self.piles@[j as int],
                ));
            }
            piles.push(self.piles[j]);
            j = j + 1;
        }
        proof {
            assert(self.piles@.take(self.piles@.len() as int) =~= self.piles@);
        }
        let pending_decision = match &self.pending_decision {
            Some(d) => Some(d.clone()),
            None => None,
        };
        let mut pending_effects: Vec<QueuedEffect> = Vec::new();
        let mut k: usize = 0;
        while k < self.pending_effects.len()
            invariant
                k <= self.pending_effects@.len(),
                pending_effects@ == self.pending_effects@.take(k as int),
            decreases self.pending_effects@.len() - k,
        {
            proof {
                assert(self.pending_effects@.take(k + 1) =~= self.pending_effects@.take(
                    k as int,
                ).push(self.pending_effects@[k as int]));
            }
            pending_effects.push(self.pending_effects[k]);
            k = k + 1;
        }
        proof {
            assert(self.pending_effects@.take(self.pending_effects@.len() as int)
                =~= self.pending_effects@);
        }
        Game {
            turn: self.turn,
            active_player: self.active_player,
            phase: self.phase,
            actions: self.actions,
            buys: self.buys,
            coins: self.coins,
            current_action_identifier: self.current_action_identifier,
            piles,
            play_area: crate::util::copy_cards(&self.play_area),
            trash_pile: crate::util::copy_cards(&self.trash_pile),
            players,
            pending_decision,
            pending_effects,
        }
    }
}

/// The auxiliary data threaded through every game mutation: the random
/// generator and the debug flag.  Not part of state identity.
pub struct EvalContext {
    pub rng: WeakRng,
    pub debug: bool,
}

pub open spec fn spec_piles_valid(piles: Seq<(CardIdentifier, i32)>) -> bool {
    forall|k: int| 0 <= k < piles.len() ==> spec_valid_card(#[trigger] piles[k].0.0)
}

/// The remaining count of the pile for `id` (zero when no such pile).
pub open spec fn spec_pile_count(piles: Seq<(CardIdentifier, i32)>, id: u16) -> int
    decreases piles.len(),
{
    if piles.len() == 0 {
        0
    } else if piles[0].0.0 == id {
        piles[0].1 as int
    } else {
        spec_pile_count(piles.drop_first(), id)
    }
}

/// How many piles are empty.
pub open spec fn spec_num_empty_piles(piles: Seq<(CardIdentifier, i32)>) -> int
    decreases piles.len(),
{
    if piles.len() == 0 {
        0
    } else {
        spec_num_empty_piles(piles.drop_last()) + (if piles.last().1 <= 0 {
            1int
        } else {
            0int
        })
    }
}

/// The cards gainable at a cost within `lo ..= hi`: the identifiers of the
/// non-empty piles whose card costs that much, in supply order.
pub open spec fn spec_gainable(piles: Seq<(CardIdentifier, i32)>, lo: int, hi: int) -> Seq<
    CardIdentifier,
>
    decreases piles.len(),
{
    if piles.len() == 0 {
        Seq::empty()
    } else {
        let rest = spec_gainable(piles.drop_last(), lo, hi);
        if piles.last().1 > 0 && lo <= spec_cost(piles.last().0.0) <= hi {
            rest.push(piles.last().0)
        } else {
            rest
        }
    }
}

/// The players an effect with the given target applies to, starting from
/// the active player and following turn order.
pub open spec fn spec_targets(n: int, target: EffectTarget, active: u8) -> Seq<PlayerIdentifier>
    recommends
        1 <= n <= 255,
        active < n,
{
    match target {
        EffectTarget::ActivePlayer => seq![PlayerIdentifier(active)],
        EffectTarget::Opponents => Seq::new(
            (n - 1) as nat,
            |j: int| PlayerIdentifier((((j + 1) + active) % n) as u8),
        ),
        EffectTarget::AllPlayers => Seq::new(
            n as nat,
            |j: int| PlayerIdentifier(((j + active) % n) as u8),
        ),
    }
}

impl Game {
    pub open spec fn inv(self) -> bool {
        &&& 1 <= self.players@.len() <= 255
        &&& (self.active_player.0 as int) < self.players@.len()
        &&& self.turn >= 1
        &&& (forall|i: int| 0 <= i < self.players@.len() ==> #[trigger] self.players@[i].wf())
        &&& spec_piles_valid(self.piles@)
        &&& spec_all_valid(self.play_area@)
        &&& spec_all_valid(self.trash_pile@)
        &&& (self.pending_decision matches Some(d) ==> d.wf())
    }

    /// The cards currently gainable at a cost within the (inclusive) range.
    pub fn gainable_cards_costing(&self, cost_range: (i32, i32)) -> (r: Vec<CardIdentifier>)
        requires
            spec_piles_valid(self.piles@),
        ensures
            r@ == spec_gainable(self.piles@, cost_range.0 as int, cost_range.1 as int),
    {
        let mut gainable: Vec<CardIdentifier> = Vec::new();
        let mut i: usize = 0;
        proof {
            assert(self.piles@.take(0) =~= Seq::<(CardIdentifier, i32)>::empty());
        }
        while i < self.piles.len()
            invariant
                i <= self.piles@.len(),
                spec_piles_valid(self.piles@),
                gainable@ == spec_gainable(
                    self.piles@.take(i as int),
                    cost_range.0 as int,
                    cost_range.1 as int,
                ),
            decreases self.piles@.len() - i,
        {
            proof {
                assert(self.piles@.take(i + 1).drop_last() =~= self.piles@.take(i as int));
                assert(self.piles@.take(i + 1).last() == self.piles@[i as int]);
            }
            let (ci, num) = self.piles[i];
            if num > 0 {
                let cost = cards::lookup_card(&ci).cost;
                if cost >= cost_range.0 && cost <= cost_range.1 {
                    gainable.push(ci);
                }
            }
            i = i + 1;
        }
        proof {
            assert(self.piles@.take(self.piles@.len() as int) =~= self.piles@);
        }
        gainable
    }

    /// Hands the turn to the next player in roster order (wrapping advances
    /// the turn counter) and resets the turn-scoped counters.
    pub fn next_turn(&mut self)
        requires
            1 <= old(self).players@.len() <= 255,
            (old(self).active_player.0 as int) < old(self).players@.len(),
            old(self).turn < i32::MAX,
        ensures
            final(self).turn == (if old(self).active_player.0 + 1 == old(self).players@.len() {
                old(self).turn + 1
            } else {
                old(self).turn as int
            }),
            final(self).active_player.0 == (if old(self).active_player.0 + 1 == old(
                self,
            ).players@.len() {
                0int
            } else {
                old(self).active_player.0 + 1
            }),
            final(self).phase == Phase::StartTurn,
            final(self).actions == 1,
            final(self).buys == 1,
            final(self).coins == 0,
            final(self).current_action_identifier.0 == 0,
            final(self).piles == old(self).piles,
            final(self).play_area == old(self).play_area,
            final(self).trash_pile == old(self).trash_pile,
            final(self).players == old(self).players,
            final(self).pending_decision == old(self).pending_decision,
            final(self).pending_effects == old(self).pending_effects,
    {
        if self.active_player.0 as usize + 1 == self.players.len() {
            self.turn = self.turn + 1;
            self.active_player = PlayerIdentifier(0);
        } else {
            self.active_player = PlayerIdentifier(self.active_player.0 + 1);
        }
        self.phase = Phase::StartTurn;
        self.actions = 1;
        self.buys = 1;
        self.coins = 0;
        self.current_action_identifier = ActionIdentifier::new();
    }

    /// The players an effect with the given target applies to.
    pub fn players_for_target(&self, target: EffectTarget, active_player: PlayerIdentifier) -> (r:
        Vec<PlayerIdentifier>)
        requires
            1 <= self.players@.len() <= 255,
        ensures
            r@ == spec_targets(self.players@.len() as int, target, active_player.0),
    {
        let n = self.players.len();
        match target {
            EffectTarget::ActivePlayer => {
                let mut v: Vec<PlayerIdentifier> = Vec::new();
                v.push(active_player);
                proof {
                    assert(v@ =~= spec_targets(n as int, target, active_player.0));
                }
                v
            },
            EffectTarget::Opponents => {
                let mut v: Vec<PlayerIdentifier> = Vec::new();
                let mut i: usize = 1;
                while i < n
                    invariant
                        1 <= i <= n,
                        n == self.players@.len(),
                        1 <= n <= 255,
                        v@ == spec_targets(n as int, EffectTarget::Opponents, active_player.0).take(
                            i - 1,
                        ),
                    decreases n - i,
                {
                    proof {
                        assert(spec_targets(n as int, EffectTarget::Opponents, active_player.0).take(
                            i as int,
                        ) =~= spec_targets(n as int, EffectTarget::Opponents, active_player.0).take(
                            i - 1,
                        ).push(
                            spec_targets(n as int, EffectTarget::Opponents, active_player.0)[i - 1],
                        ));
                    }
                    v.push(PlayerIdentifier(((i + active_player.0 as usize) % n) as u8));
                    i = i + 1;
                }
                proof {
                    assert(spec_targets(n as int, EffectTarget::Opponents, active_player.0).take(
                        n - 1,
                    ) =~= spec_targets(n as int, EffectTarget::Opponents, active_player.0));
                }
                v
            },
            EffectTarget::AllPlayers => {
                let mut v: Vec<PlayerIdentifier> = Vec::new();
                let mut i: usize = 0;
                while i < n
                    invariant
                        i <= n,
                        n == self.players@.len(),
                        1 <= n <= 255,
                        v@ == spec_targets(n as int, EffectTarget::AllPlayers, active_player.0).take(
                            i as int,
                        ),
                    decreases n - i,
                {
                    proof {
                        assert(spec_targets(
                            n as int,
                            EffectTarget::AllPlayers,
                            active_player.0,
                        ).take(i + 1) =~= spec_targets(
                            n as int,
                            EffectTarget::AllPlayers,
                            active_player.0,
                        ).take(i as int).push(
                            spec_targets(n as int, EffectTarget::AllPlayers, active_player.0)[
                                i as int],
                        ));
                    }
                    v.push(PlayerIdentifier(((i + active_player.0 as usize) % n) as u8));
                    i = i + 1;
                }
                proof {
                    assert(spec_targets(n as int, EffectTarget::AllPlayers, active_player.0).take(
                        n as int,
                    ) =~= spec_targets(n as int, EffectTarget::AllPlayers, active_player.0));
                }
                v
            },
        }
    }

    /// Queues one copy of the action's effect for each targeted player, in
    /// target order.
    pub fn queue_card_effects(
        &mut self,
        pid: PlayerIdentifier,
        aid: ActionIdentifier,
        action: &CardAction,
    )
        requires
            1 <= old(self).players@.len() <= 255,
            old(self).pending_effects@.len() + 255 <= usize::MAX,
        ensures
            final(self).pending_effects@ == old(self).pending_effects@ + Seq::new(
                spec_targets(
                    old(self).players@.len() as int,
                    crate::cards::spec_action_target(*action),
                    pid.0,
                ).len(),
                |k: int| QueuedEffect::ActionEffect(
                    spec_targets(
                        old(self).players@.len() as int,
                        crate::cards::spec_action_target(*action),
                        pid.0,
                    )[k],
                    aid,
                    *action,
                ),
            ),
            final(self).players == old(self).players,
            final(self).piles == old(self).piles,
            final(self).pending_decision == old(self).pending_decision,
            final(self).turn == old(self).turn,
            final(self).phase == old(self).phase,
            final(self).active_player == old(self).active_player,
            final(self).actions == old(self).actions,
            final(self).buys == old(self).buys,
            final(self).coins == old(self).coins,
            final(self).play_area == old(self).play_area,
            final(self).trash_pile == old(self).trash_pile,
            final(self).current_action_identifier == old(self).current_action_identifier,
    {
        let target = cards::target_for_action(action);
        let targets = self.players_for_target(target, pid);
        let ghost tseq = spec_targets(
            old(self).players@.len() as int,
            crate::cards::spec_action_target(*action),
            pid.0,
        );
        let ghost effects = Seq::new(
            tseq.len(),
            |k: int| QueuedEffect::ActionEffect(tseq[k], aid, *action),
        );
        let mut i: usize = 0;
        proof {
            assert(targets@ == tseq);
            assert(self.pending_effects@ =~= old(self).pending_effects@ + effects.take(0));
        }
        while i < targets.len()
            invariant
                i <= targets@.len(),
                targets@ == tseq,
                effects == Seq::new(
                    tseq.len(),
                    |k: int| QueuedEffect::ActionEffect(tseq[k], aid, *action),
                ),
                tseq.len() <= 255,
                self.pending_effects@ == old(self).pending_effects@ + effects.take(i as int),
                old(self).pending_effects@.len() + 255 <= usize::MAX,
                self.players == old(self).players,
                self.piles == old(self).piles,
                self.pending_decision == old(self).pending_decision,
                self.turn == old(self).turn,
                self.phase == old(self).phase,
                self.active_player == old(self).active_player,
                self.actions == old(self).actions,
                self.buys == old(self).buys,
                self.coins == old(self).coins,
                self.play_area == old(self).play_area,
                self.trash_pile == old(self).trash_pile,
                self.current_action_identifier == old(self).current_action_identifier,
            decreases targets@.len() - i,
        {
            proof {
                assert(effects.take(i + 1) =~= effects.take(i as int).push(effects[i as int]));
                assert((old(self).pending_effects@ + effects.take(i as int)).push(
                    effects[i as int],
                ) =~= old(self).pending_effects@ + effects.take(i + 1));
            }
            let t = targets[i];
            self.pending_effects.push(QueuedEffect::ActionEffect(t, aid, *action));
            i = i + 1;
        }
        proof {
            assert(effects.take(effects.len() as int) =~= effects);
        }
    }
}

/// The queued effects with the attack `aid` against `pid` withdrawn.
pub open spec fn spec_without_attack(
    effects: Seq<QueuedEffect>,
    pid: PlayerIdentifier,
    aid: ActionIdentifier,
) -> Seq<QueuedEffect>
    decreases effects.len(),
{
    if effects.len() == 0 {
        Seq::empty()
    } else {
        let rest = spec_without_attack(effects.drop_last(), pid, aid);
        let keep = (match effects.last() {
            QueuedEffect::ActionEffect(e_pid, e_aid, _) => !(e_pid == pid && e_aid == aid),
            QueuedEffect::ReactOption(_, _) => true,
        });
        if keep {
            rest.push(effects.last())
        } else {
            rest
        }
    }
}

/// Gainable cards come from the supply, so they are valid identifiers.
proof fn lemma_gainable_valid(piles: Seq<(CardIdentifier, i32)>, lo: int, hi: int)
    requires
        spec_piles_valid(piles),
    ensures
        spec_all_valid(spec_gainable(piles, lo, hi)),
    decreases piles.len(),
{
    if piles.len() > 0 {
        assert(spec_piles_valid(piles.drop_last())) by {
            assert(forall|k: int| 0 <= k < piles.len() - 1 ==> piles.drop_last()[k] == piles[k]);
        }
        lemma_gainable_valid(piles.drop_last(), lo, hi);
        let rest = spec_gainable(piles.drop_last(), lo, hi);
        let whole = spec_gainable(piles, lo, hi);
        assert forall|k: int| 0 <= k < whole.len() implies spec_valid_card(
            #[trigger] whole[k].0,
        ) by {
            if k < rest.len() {
                assert(whole[k] == rest[k]);
            } else {
                assert(whole[k] == piles.last().0);
                assert(piles[piles.len() - 1].0.0 == piles.last().0.0);
            }
        }
    }
}

/// A pile count stays put under an update elsewhere, and an update at the
/// first entry for a card sets that card's count.
proof fn lemma_pile_count_update(p: Seq<(CardIdentifier, i32)>, j: int, v: i32)
    requires
        0 <= j < p.len(),
        forall|k: int| 0 <= k < j ==> (#[trigger] p[k]).0.0 != p[j].0.0,
    ensures
        spec_pile_count(p.update(j, (p[j].0, v)), p[j].0.0) == v,
        forall|id: u16|
            id != p[j].0.0 ==> spec_pile_count(p.update(j, (p[j].0, v)), id) == spec_pile_count(
                p,
                id,
            ),
    decreases p.len(),
{
    let q = p.update(j, (p[j].0, v));
    if j == 0 {
        assert(q[0] == (p[0].0, v));
        assert(q.drop_first() =~= p.drop_first());
        assert forall|id: u16|
            id != p[j].0.0 implies spec_pile_count(q, id) == spec_pile_count(p, id) by {
            assert(spec_pile_count(q, id) == spec_pile_count(q.drop_first(), id));
            assert(spec_pile_count(p, id) == spec_pile_count(p.drop_first(), id));
        }
    } else {
        assert(q[0] == p[0]);
        assert(q.drop_first() =~= p.drop_first().update(j - 1, (p[j].0, v)));
        assert(p.drop_first()[j - 1] == p[j]);
        assert(forall|k: int|
            0 <= k < j - 1 ==> (#[trigger] p.drop_first()[k]).0.0 != p.drop_first()[j - 1].0.0);
        lemma_pile_count_update(p.drop_first(), j - 1, v);
        assert(p[0].0.0 != p[j].0.0);
        assert(spec_pile_count(q, p[j].0.0) == spec_pile_count(q.drop_first(), p[j].0.0));
        assert forall|id: u16|
            id != p[j].0.0 implies spec_pile_count(q, id) == spec_pile_count(p, id) by {
            if p[0].0.0 == id {
                assert(spec_pile_count(q, id) == q[0].1);
                assert(spec_pile_count(p, id) == p[0].1);
            } else {
                assert(spec_pile_count(q, id) == spec_pile_count(q.drop_first(), id));
                assert(spec_pile_count(p, id) == spec_pile_count(p.drop_first(), id));
            }
        }
    }
}

impl Game {
    /// Takes one card from the supply pile for `ci`; every other pile is
    /// untouched.
    pub fn remove_one_from_pile(&mut self, ci: &CardIdentifier)
        requires
            spec_pile_count(old(self).piles@, ci.0) > 0,
        ensures
            final(self).piles@.len() == old(self).piles@.len(),
            spec_pile_count(final(self).piles@, ci.0) == spec_pile_count(old(self).piles@, ci.0)
                - 1,
            forall|id: u16|
                id != ci.0 ==> spec_pile_count(final(self).piles@, id) == spec_pile_count(
                    old(self).piles@,
                    id,
                ),
            spec_piles_valid(old(self).piles@) ==> spec_piles_valid(final(self).piles@),
            final(self).players == old(self).players,
            final(self).turn == old(self).turn,
            final(self).active_player == old(self).active_player,
            final(self).phase == old(self).phase,
            final(self).actions == old(self).actions,
            final(self).buys == old(self).buys,
            final(self).coins == old(self).coins,
            final(self).current_action_identifier == old(self).current_action_identifier,
            final(self).play_area == old(self).play_area,
            final(self).trash_pile == old(self).trash_pile,
            final(self).pending_decision == old(self).pending_decision,
            final(self).pending_effects == old(self).pending_effects,
    {
        let ghost piles0 = self.piles@;
        proof {
            assert(self.piles@.skip(0) =~= self.piles@);
        }
        let mut j: usize = 0;
        while j < self.piles.len() && !(self.piles[j].0 == *ci)
            invariant
                j <= self.piles@.len(),
                self.piles@ == piles0,
                spec_pile_count(piles0, ci.0) > 0,
                spec_pile_count(piles0, ci.0) == spec_pile_count(piles0.skip(j as int), ci.0),
                forall|k: int| 0 <= k < j ==> (#[trigger] piles0[k]).0.0 != ci.0,
            decreases self.piles@.len() - j,
        {
            proof {
                assert(piles0.skip(j as int).drop_first() =~= piles0.skip(j + 1));
                assert(piles0.skip(j as int)[0] == piles0[j as int]);
            }
            j = j + 1;
        }
        proof {
            if j == self.piles@.len() {
                assert(piles0.skip(j as int) =~= Seq::<(CardIdentifier, i32)>::empty());
            }
            assert(piles0.skip(j as int)[0] == piles0[j as int]);
            assert(piles0[j as int].1 == spec_pile_count(piles0, ci.0));
            lemma_pile_count_update(piles0, j as int, (piles0[j as int].1 - 1) as i32);
        }
        let entry = self.piles[j];
        self.piles[j] = (entry.0, entry.1 - 1);
        proof {
            assert(self.piles@ =~= piles0.update(j as int, (piles0[j as int].0, (entry.1 - 1) as i32)));
        }
    }

    /// Takes the card from its pile and puts it in the player's discard
    /// pile or hand.
    pub fn gain_card(
        &mut self,
        player: PlayerIdentifier,
        ci: &CardIdentifier,
        dest: GainDestination,
        _ctx: &mut EvalContext,
    )
        requires
            spec_pile_count(old(self).piles@, ci.0) > 0,
            (player.0 as int) < old(self).players@.len(),
        ensures
            spec_pile_count(final(self).piles@, ci.0) == spec_pile_count(old(self).piles@, ci.0)
                - 1,
            forall|id: u16|
                id != ci.0 ==> spec_pile_count(final(self).piles@, id) == spec_pile_count(
                    old(self).piles@,
                    id,
                ),
            final(self).players@.len() == old(self).players@.len(),
            forall|x: int|
                0 <= x < old(self).players@.len() && x != player.0 ==> final(self).players@[x]
                    == old(self).players@[x],
            (dest == GainDestination::GainToDiscard
                ==> final(self).players@[player.0 as int].discard@
                == old(self).players@[player.0 as int].discard@.push(*ci)
                && final(self).players@[player.0 as int].hand
                == old(self).players@[player.0 as int].hand),
            (dest == GainDestination::GainToHand ==> final(self).players@[player.0 as int].hand@
                == old(self).players@[player.0 as int].hand@.push(*ci)
                && final(self).players@[player.0 as int].discard
                == old(self).players@[player.0 as int].discard),
            final(self).players@[player.0 as int].deck == old(self).players@[player.0 as int].deck,
            final(self).coins == old(self).coins,
            final(self).buys == old(self).buys,
            final(self).phase == old(self).phase,
            final(self).turn == old(self).turn,
            final(self).active_player == old(self).active_player,
            final(self).pending_decision == old(self).pending_decision,
            final(self).pending_effects == old(self).pending_effects,
    {
        self.remove_one_from_pile(ci);
        let p = &mut self.players[player.0 as usize];
        match dest {
            GainDestination::GainToDiscard => p.discard.push(*ci),
            GainDestination::GainToHand => p.hand.push(*ci),
        }
    }

    /// Pays for the card and gains it to the discard pile: one buy and its
    /// cost in coins are spent, and the pile shrinks by one.
    pub fn buy_card(&mut self, player: PlayerIdentifier, ci: &CardIdentifier, _ctx: &mut EvalContext)
        requires
            spec_valid_card(ci.0),
            old(self).buys > 0,
            old(self).coins >= spec_cost(ci.0),
            spec_pile_count(old(self).piles@, ci.0) > 0,
            (player.0 as int) < old(self).players@.len(),
        ensures
            final(self).buys == old(self).buys - 1,
            final(self).coins == old(self).coins - spec_cost(ci.0),
            spec_pile_count(final(self).piles@, ci.0) == spec_pile_count(old(self).piles@, ci.0)
                - 1,
            forall|id: u16|
                id != ci.0 ==> spec_pile_count(final(self).piles@, id) == spec_pile_count(
                    old(self).piles@,
                    id,
                ),
            final(self).players@.len() == old(self).players@.len(),
            forall|x: int|
                0 <= x < old(self).players@.len() && x != player.0 ==> final(self).players@[x]
                    == old(self).players@[x],
            final(self).players@[player.0 as int].discard@ == old(
                self,
            ).players@[player.0 as int].discard@.push(*ci),
            final(self).players@[player.0 as int].hand == old(self).players@[player.0 as int].hand,
            final(self).players@[player.0 as int].deck == old(self).players@[player.0 as int].deck,
            final(self).phase == old(self).phase,
            final(self).turn == old(self).turn,
            final(self).active_player == old(self).active_player,
            final(self).pending_decision == old(self).pending_decision,
    {
        let c = cards::lookup_card(ci);
        self.buys = self.buys - 1;
        self.coins = self.coins - c.cost;
        self.remove_one_from_pile(ci);
        self.players[player.0 as usize].discard.push(*ci);
    }

    /// The coin total the played treasures are worth.
    pub open spec fn spec_coin_sum(s: Seq<CardIdentifier>) -> int
        decreases s.len(),
    {
        if s.len() == 0 {
            0
        } else {
            Self::spec_coin_sum(s.drop_last()) + (match cards::spec_coin_value(s.last().0) {
                Some(v) => v as int,
                None => 0,
            })
        }
    }

    /// Plays the listed treasures from the player's hand: their coin values
    /// are added to the coin total and the cards move to the play area.
    pub fn play_treasures(
        &mut self,
        pid: PlayerIdentifier,
        result: &Vec<CardIdentifier>,
        _ctx: &mut EvalContext,
    )
        requires
            (pid.0 as int) < old(self).players@.len(),
            spec_all_valid(result@),
            forall|k: int|
                0 <= k < result@.len() ==> cards::spec_coin_value(
                    (#[trigger] result@[k]).0,
                ) is Some,
            forall|c: CardIdentifier| #[trigger] result@.to_multiset().count(c) <= old(
                self,
            ).players@[pid.0 as int].hand@.to_multiset().count(c),
            0 <= old(self).coins,
            old(self).coins + 3 * result@.len() <= i32::MAX,
        ensures
            final(self).coins == old(self).coins + Self::spec_coin_sum(result@),
            final(self).play_area@ == old(self).play_area@ + result@,
            final(self).players@.len() == old(self).players@.len(),
            forall|x: int|
                0 <= x < old(self).players@.len() && x != pid.0 ==> final(self).players@[x] == old(
                    self,
                ).players@[x],
            final(self).players@[pid.0 as int].hand@.to_multiset() == old(
                self,
            ).players@[pid.0 as int].hand@.to_multiset().sub(result@.to_multiset()),
            final(self).players@[pid.0 as int].discard == old(self).players@[pid.0 as int].discard,
            final(self).players@[pid.0 as int].deck == old(self).players@[pid.0 as int].deck,
            final(self).buys == old(self).buys,
            final(self).phase == old(self).phase,
            final(self).turn == old(self).turn,
            final(self).active_player == old(self).active_player,
            final(self).piles == old(self).piles,
            final(self).trash_pile == old(self).trash_pile,
            final(self).current_action_identifier == old(self).current_action_identifier,
            final(self).pending_decision == old(self).pending_decision,
            final(self).pending_effects == old(self).pending_effects,
    {
        let mut i: usize = 0;
        proof {
            assert(result@.take(0) =~= Seq::<CardIdentifier>::empty());
        }
        while i < result.len()
            invariant
                i <= result@.len(),
                spec_all_valid(result@),
                forall|k: int|
                    0 <= k < result@.len() ==> cards::spec_coin_value(
                        (#[trigger] result@[k]).0,
                    ) is Some,
                self.coins == old(self).coins + Self::spec_coin_sum(result@.take(i as int)),
                old(self).coins <= self.coins <= old(self).coins + 3 * i,
                old(self).coins + 3 * result@.len() <= i32::MAX,
                self.players == old(self).players,
                self.play_area == old(self).play_area,
                self.buys == old(self).buys,
                self.phase == old(self).phase,
                self.turn == old(self).turn,
                self.active_player == old(self).active_player,
                self.piles == old(self).piles,
                self.trash_pile == old(self).trash_pile,
                self.current_action_identifier == old(self).current_action_identifier,
                self.pending_decision == old(self).pending_decision,
                self.pending_effects == old(self).pending_effects,
            decreases result@.len() - i,
        {
            proof {
                assert(result@.take(i + 1).drop_last() =~= result@.take(i as int));
                assert(result@.take(i + 1).last() == result@[i as int]);
            }
            let c = cards::lookup_card(&result[i]);
            let v = match c.coin_value {
                Some(v) => v,
                None => 0,
            };
            proof {
                assert(1 <= v <= 3) by {
                    assert(cards::spec_coin_value(result@[i as int].0) is Some);
                }
            }
            self.coins = self.coins + v;
            i = i + 1;
        }
        proof {
            assert(result@.take(result@.len() as int) =~= result@);
        }
        append_cards(&mut self.play_area, result);
        crate::util::subtract_vector(&mut self.players[pid.0 as usize].hand, result);
    }

    /// Demands that the player discard down to `n` cards: when the hand is
    /// larger, a discard decision over the whole hand is posted.
    pub fn player_discards_to(&mut self, pid: PlayerIdentifier, n: i32, _ctx: &mut EvalContext)
        requires
            (pid.0 as int) < old(self).players@.len(),
            n >= 0,
        ensures
            old(self).players@[pid.0 as int].hand@.len() > n ==> (final(self).pending_decision matches Some(d) && d.player == pid && d.decision_type
                == DecisionType::DiscardCards(None) && d.choices@ == old(
                self,
            ).players@[pid.0 as int].hand@ && d.range.0 == old(
                self,
            ).players@[pid.0 as int].hand@.len() - n && d.range.1 == d.range.0),
            old(self).players@[pid.0 as int].hand@.len() <= n ==> final(self).pending_decision
                == old(self).pending_decision,
            final(self).players == old(self).players,
            final(self).piles == old(self).piles,
            final(self).pending_effects == old(self).pending_effects,
            final(self).phase == old(self).phase,
            final(self).coins == old(self).coins,
            final(self).turn == old(self).turn,
            final(self).active_player == old(self).active_player,
            final(self).actions == old(self).actions,
            final(self).buys == old(self).buys,
            final(self).play_area == old(self).play_area,
            final(self).trash_pile == old(self).trash_pile,
            final(self).current_action_identifier == old(self).current_action_identifier,
    {
        let player = &self.players[pid.0 as usize];
        if player.hand.len() > n as usize {
            let discard_count = player.hand.len() - n as usize;
            let choices = crate::util::copy_cards(&player.hand);
            self.pending_decision = Some(
                Decision {
                    player: pid,
                    decision_type: DecisionType::DiscardCards(None),
                    choices,
                    range: (discard_count, discard_count),
                },
            );
        }
    }

    /// Offers the player a free gain of any card costing within the range:
    /// when something is gainable, a gain decision is posted.
    pub fn player_picks_gain(
        &mut self,
        pid: PlayerIdentifier,
        cost_range: (i32, i32),
        _ctx: &mut EvalContext,
    )
        requires
            spec_piles_valid(old(self).piles@),
        ensures
            spec_gainable(old(self).piles@, cost_range.0 as int, cost_range.1 as int).len() > 0
                ==> (final(self).pending_decision matches Some(d) && d.player == pid
                && d.decision_type == DecisionType::GainCard(GainDestination::GainToDiscard)
                && d.choices@ == spec_gainable(
                old(self).piles@,
                cost_range.0 as int,
                cost_range.1 as int,
            ) && d.range == (1usize, 1usize)),
            spec_gainable(old(self).piles@, cost_range.0 as int, cost_range.1 as int).len() == 0
                ==> final(self).pending_decision == old(self).pending_decision,
            final(self).players == old(self).players,
            final(self).piles == old(self).piles,
            final(self).pending_effects == old(self).pending_effects,
            final(self).phase == old(self).phase,
            final(self).coins == old(self).coins,
            final(self).turn == old(self).turn,
            final(self).active_player == old(self).active_player,
            final(self).actions == old(self).actions,
            final(self).buys == old(self).buys,
            final(self).play_area == old(self).play_area,
            final(self).trash_pile == old(self).trash_pile,
            final(self).current_action_identifier == old(self).current_action_identifier,
    {
        let cards = self.gainable_cards_costing(cost_range);
        if !cards.is_empty() {
            self.pending_decision = Some(
                Decision {
                    player: pid,
                    decision_type: DecisionType::GainCard(GainDestination::GainToDiscard),
                    choices: cards,
                    range: (1, 1),
                },
            );
        }
    }

    /// Offers the player a trash of one matching card from the hand (any
    /// card when no type is named); when one matches, a trash decision with
    /// the followup is posted.
    pub fn offer_player_trash(
        &mut self,
        pid: PlayerIdentifier,
        maybe_card_type: Option<CardType>,
        followup: Option<TrashFollowup>,
        _ctx: &mut EvalContext,
    )
        requires
            (pid.0 as int) < old(self).players@.len(),
            spec_all_valid(old(self).players@[pid.0 as int].hand@),
        ensures
            ({
                let trashable = (match maybe_card_type {
                    Some(t) => cards::spec_filter_by_type(
                        old(self).players@[pid.0 as int].hand@,
                        t,
                    ),
                    None => old(self).players@[pid.0 as int].hand@,
                });
                &&& (trashable.len() > 0 ==> (final(self).pending_decision matches Some(d)
                    && d.player == pid && d.decision_type == DecisionType::TrashCards(followup)
                    && d.choices@ == trashable && d.range == (1usize, 1usize)))
                &&& (trashable.len() == 0 ==> final(self).pending_decision == old(
                    self,
                ).pending_decision)
            }),
            final(self).players == old(self).players,
            final(self).piles == old(self).piles,
            final(self).pending_effects == old(self).pending_effects,
            final(self).phase == old(self).phase,
            final(self).coins == old(self).coins,
            final(self).turn == old(self).turn,
            final(self).active_player == old(self).active_player,
            final(self).actions == old(self).actions,
            final(self).buys == old(self).buys,
            final(self).play_area == old(self).play_area,
            final(self).trash_pile == old(self).trash_pile,
            final(self).current_action_identifier == old(self).current_action_identifier,
    {
        let trashable = match &maybe_card_type {
            Some(card_type) => cards::filter_by_type(&self.players[pid.0 as usize].hand, card_type),
            None => crate::util::copy_cards(&self.players[pid.0 as usize].hand),
        };

        if !trashable.is_empty() {
            self.pending_decision = Some(
                Decision {
                    player: pid,
                    decision_type: DecisionType::TrashCards(followup),
                    choices: trashable,
                    range: (1, 1),
                },
            );
        }
    }

    /// Offers the player a discard of any part of the hand for the card's
    /// effect; nothing is posted over an empty hand.
    pub fn offer_player_discard(
        &mut self,
        pid: PlayerIdentifier,
        discard_effect: DiscardEffect,
        _ctx: &mut EvalContext,
    )
        requires
            (pid.0 as int) < old(self).players@.len(),
        ensures
            old(self).players@[pid.0 as int].hand@.len() > 0 ==> (final(self).pending_decision matches Some(d) && d.player == pid && d.decision_type
                == DecisionType::DiscardCards(Some(discard_effect)) && d.choices@ == old(
                self,
            ).players@[pid.0 as int].hand@ && d.range == (
                0usize,
                old(self).players@[pid.0 as int].hand@.len() as usize,
            )),
            old(self).players@[pid.0 as int].hand@.len() == 0 ==> final(self).pending_decision
                == old(self).pending_decision,
            final(self).players == old(self).players,
            final(self).piles == old(self).piles,
            final(self).pending_effects == old(self).pending_effects,
            final(self).phase == old(self).phase,
            final(self).coins == old(self).coins,
            final(self).turn == old(self).turn,
            final(self).active_player == old(self).active_player,
            final(self).actions == old(self).actions,
            final(self).buys == old(self).buys,
            final(self).play_area == old(self).play_area,
            final(self).trash_pile == old(self).trash_pile,
            final(self).current_action_identifier == old(self).current_action_identifier,
    {
        let hand_len = self.players[pid.0 as usize].hand.len();
        if hand_len == 0 {
            return ;
        }
        let choices = crate::util::copy_cards(&self.players[pid.0 as usize].hand);
        self.pending_decision = Some(
            Decision {
                player: pid,
                decision_type: DecisionType::DiscardCards(Some(discard_effect)),
                choices,
                range: (0, hand_len),
            },
        );
    }

    /// Moves the listed cards from the player's hand to the discard pile,
    /// then applies the discard effect (drawing one card per discard).
    pub fn player_discards(
        &mut self,
        pid: PlayerIdentifier,
        cards_to_discard: Vec<CardIdentifier>,
        maybe_effect: Option<DiscardEffect>,
        ctx: &mut EvalContext,
    )
        requires
            (pid.0 as int) < old(self).players@.len(),
            cards_to_discard@.len() >= 1,
            old(self).players@[pid.0 as int].wf(),
            forall|c: CardIdentifier| #[trigger] cards_to_discard@.to_multiset().count(c) <= old(
                self,
            ).players@[pid.0 as int].hand@.to_multiset().count(c),
        ensures
            final(self).players@.len() == old(self).players@.len(),
            forall|x: int|
                0 <= x < old(self).players@.len() && x != pid.0 ==> final(self).players@[x] == old(
                    self,
                ).players@[x],
            final(self).players@[pid.0 as int].wf(),
            final(self).players@[pid.0 as int].spec_all_cards().to_multiset() == old(
                self,
            ).players@[pid.0 as int].spec_all_cards().to_multiset(),
            final(self).piles == old(self).piles,
            final(self).phase == old(self).phase,
            final(self).coins == old(self).coins,
            final(self).turn == old(self).turn,
            final(self).active_player == old(self).active_player,
            final(self).pending_decision == old(self).pending_decision,
    {
        broadcast use vstd::seq_lib::lemma_multiset_commutative;
        broadcast use vstd::seq_lib::group_to_multiset_ensures;
        broadcast use vstd::multiset::group_multiset_axioms;

        let ghost old_player = old(self).players@[pid.0 as int];
        {
            let player = &mut self.players[pid.0 as usize];
            let ghost pre = *player;
            append_cards(&mut player.discard, &cards_to_discard);
            crate::util::subtract_vector(&mut player.hand, &cards_to_discard);
            proof {
                assert(player.spec_all_cards().to_multiset()
                    =~= old_player.spec_all_cards().to_multiset()) by {
                    assert(old_player.spec_all_cards().to_multiset()
                        == old_player.hand@.to_multiset().add(old_player.deck@.to_multiset()).add(
                        old_player.discard@.to_multiset(),
                    ));
                    assert(player.spec_all_cards().to_multiset()
                        == player.hand@.to_multiset().add(player.deck@.to_multiset()).add(
                        player.discard@.to_multiset(),
                    ));
                }
                assert(player.spec_all_cards().len() == old_player.spec_all_cards().len()) by {
                    assert(player.spec_all_cards().to_multiset().len() == player.spec_all_cards().len());
                    assert(old_player.spec_all_cards().to_multiset().len()
                        == old_player.spec_all_cards().len());
                }
                crate::util::lemma_valid_from_multiset(
                    old_player.spec_all_cards(),
                    player.spec_all_cards(),
                );
                lemma_parts_valid(*player);
            }
        }

        if let Some(effect) = maybe_effect {
            match effect {
                DiscardEffect::DrawPerDiscard => {
                    self.player_draws_cards(pid, cards_to_discard.len(), ctx)
                },
            }
        }
    }

    /// Moves the listed cards from the player's hand onto the trash pile,
    /// and posts the trash followup (the replace-by-cost gain) when the
    /// card carries one.
    pub fn trash_cards(
        &mut self,
        pid: PlayerIdentifier,
        cards_to_trash: Vec<CardIdentifier>,
        maybe_followup: Option<TrashFollowup>,
        _ctx: &mut EvalContext,
    )
        requires
            (pid.0 as int) < old(self).players@.len(),
            cards_to_trash@.len() >= 1,
            spec_all_valid(cards_to_trash@),
            old(self).players@[pid.0 as int].wf(),
            spec_piles_valid(old(self).piles@),
            forall|c: CardIdentifier| #[trigger] cards_to_trash@.to_multiset().count(c) <= old(
                self,
            ).players@[pid.0 as int].hand@.to_multiset().count(c),
            (maybe_followup is Some ==> cards_to_trash@.len() == 1),
            (maybe_followup matches Some(TrashFollowup::ReplaceByCost(_, pc, _)) ==> 0 <= pc
                <= 1000),
        ensures
            final(self).players@.len() == old(self).players@.len(),
            forall|x: int|
                0 <= x < old(self).players@.len() && x != pid.0 ==> final(self).players@[x] == old(
                    self,
                ).players@[x],
            final(self).players@[pid.0 as int].hand@.to_multiset() == old(
                self,
            ).players@[pid.0 as int].hand@.to_multiset().sub(cards_to_trash@.to_multiset()),
            final(self).trash_pile@ == old(self).trash_pile@ + cards_to_trash@,
            final(self).piles == old(self).piles,
            final(self).phase == old(self).phase,
            final(self).coins == old(self).coins,
            final(self).turn == old(self).turn,
            final(self).active_player == old(self).active_player,
            (maybe_followup is None ==> final(self).pending_decision == old(
                self,
            ).pending_decision),
    {
        {
            let player = &mut self.players[pid.0 as usize];
            crate::util::subtract_vector(&mut player.hand, &cards_to_trash);
        }
        append_cards(&mut self.trash_pile, &cards_to_trash);

        if let Some(followup) = maybe_followup {
            match followup {
                TrashFollowup::ReplaceByCost(maybe_card_type, plus_cost, dest) => {
                    let trashed = cards::lookup_card(&cards_to_trash[0]);
                    proof {
                        assert(0 <= trashed.cost <= 8);
                    }
                    self.replace_card_by_cost(
                        pid,
                        trashed.cost,
                        plus_cost,
                        maybe_card_type,
                        dest,
                        _ctx,
                    );
                },
            }
        }
    }

    /// Offers the player a replacement for a trashed card: any gainable
    /// card (of the named type, when one is named) costing up to the
    /// trashed card's cost plus the bonus.
    pub fn replace_card_by_cost(
        &mut self,
        pid: PlayerIdentifier,
        trashed_cost: i32,
        plus_cost: i32,
        maybe_card_type: Option<CardType>,
        dest: GainDestination,
        _ctx: &mut EvalContext,
    )
        requires
            spec_piles_valid(old(self).piles@),
            trashed_cost + plus_cost <= i32::MAX,
            trashed_cost + plus_cost >= i32::MIN,
        ensures
            final(self).players == old(self).players,
            final(self).piles == old(self).piles,
            final(self).pending_effects == old(self).pending_effects,
            final(self).phase == old(self).phase,
            final(self).coins == old(self).coins,
            final(self).turn == old(self).turn,
            final(self).active_player == old(self).active_player,
            final(self).trash_pile == old(self).trash_pile,
    {
        let mut gainable = self.gainable_cards_costing((0, trashed_cost + plus_cost));
        if let Some(card_type) = &maybe_card_type {
            proof {
                lemma_gainable_valid(self.piles@, 0, trashed_cost + plus_cost);
            }
            gainable = cards::filter_by_type(&gainable, card_type);
        }

        if !gainable.is_empty() {
            self.pending_decision = Some(
                Decision {
                    player: pid,
                    decision_type: DecisionType::GainCard(dest),
                    choices: gainable,
                    range: (1, 1),
                },
            );
        }
    }

    /// Withdraws the attack's queued effects against the revealing player:
    /// revealing a reaction with attack immunity drops every effect of that
    /// attack aimed at them.
    pub fn player_reveals_reaction(
        &mut self,
        pid: PlayerIdentifier,
        c: &CardIdentifier,
        aid: ActionIdentifier,
        _ctx: &mut EvalContext,
    )
        requires
            spec_valid_card(c.0),
            cards::spec_is_reaction(c.0),
        ensures
            final(self).pending_effects@ == spec_without_attack(
                old(self).pending_effects@,
                pid,
                aid,
            ),
            final(self).players == old(self).players,
            final(self).piles == old(self).piles,
            final(self).pending_decision == old(self).pending_decision,
            final(self).phase == old(self).phase,
            final(self).turn == old(self).turn,
            final(self).active_player == old(self).active_player,
    {
        let mut kept: Vec<QueuedEffect> = Vec::new();
        let mut i: usize = 0;
        proof {
            assert(self.pending_effects@.take(0) =~= Seq::<QueuedEffect>::empty());
        }
        while i < self.pending_effects.len()
            invariant
                i <= self.pending_effects@.len(),
                kept@ == spec_without_attack(self.pending_effects@.take(i as int), pid, aid),
                self.pending_effects == old(self).pending_effects,
                self.players == old(self).players,
                self.piles == old(self).piles,
                self.pending_decision == old(self).pending_decision,
                self.phase == old(self).phase,
            decreases self.pending_effects@.len() - i,
        {
            proof {
                assert(self.pending_effects@.take(i + 1).drop_last() =~= self.pending_effects@.take(
                    i as int,
                ));
                assert(self.pending_effects@.take(i + 1).last() == self.pending_effects@[i as int]);
            }
            let e = self.pending_effects[i];
            let keep = match e {
                QueuedEffect::ActionEffect(e_pid, e_aid, _) => !(e_pid == pid && e_aid == aid),
                QueuedEffect::ReactOption(_, _) => true,
            };
            if keep {
                kept.push(e);
            }
            i = i + 1;
        }
        proof {
            assert(self.pending_effects@.take(self.pending_effects@.len() as int)
                =~= self.pending_effects@);
        }
        self.pending_effects = kept;
    }

    /// Has the identified player draw `n` cards.
    pub fn player_draws_cards(&mut self, pid: PlayerIdentifier, n: usize, ctx: &mut EvalContext)
        requires
            n >= 1,
            (pid.0 as int) < old(self).players@.len(),
            old(self).players@[pid.0 as int].wf(),
        ensures
            final(self).players@.len() == old(self).players@.len(),
            forall|x: int|
                0 <= x < old(self).players@.len() && x != pid.0 ==> final(self).players@[x] == old(
                    self,
                ).players@[x],
            final(self).players@[pid.0 as int].wf(),
            final(self).players@[pid.0 as int].spec_all_cards().to_multiset() == old(
                self,
            ).players@[pid.0 as int].spec_all_cards().to_multiset(),
            final(self).piles == old(self).piles,
            final(self).phase == old(self).phase,
            final(self).coins == old(self).coins,
            final(self).pending_decision == old(self).pending_decision,
            final(self).pending_effects == old(self).pending_effects,
            final(self).turn == old(self).turn,
            final(self).active_player == old(self).active_player,
            final(self).actions == old(self).actions,
            final(self).buys == old(self).buys,
            final(self).play_area == old(self).play_area,
            final(self).trash_pile == old(self).trash_pile,
            final(self).current_action_identifier == old(self).current_action_identifier,
    {
        let p = &mut self.players[pid.0 as usize];
        p.draw_cards(n, ctx);
    }
}

/// A new player with the standard starting cards (seven Coppers and three
/// Estates) in the discard pile.
pub fn fresh_player(identifier: PlayerIdentifier, name: &String) -> (r: Player)
    ensures
        r.identifier == identifier,
        r.name@ == name@,
        r.hand@.len() == 0,
        r.deck@.len() == 0,
        r.discard@ == spec_fresh_discard(),
        r.wf(),
{
    let mut discard: Vec<CardIdentifier> = Vec::new();
    let mut i: usize = 0;
    while i < 7
        invariant
            i <= 7,
            discard@.len() == i,
            forall|k: int| 0 <= k < i ==> #[trigger] discard@[k] == CardIdentifier(COPPER),
        decreases 7 - i,
    {
        discard.push(CardIdentifier(COPPER));
        i = i + 1;
    }
    let mut j: usize = 0;
    while j < 3
        invariant
            j <= 3,
            discard@.len() == 7 + j,
            forall|k: int| 0 <= k < 7 ==> #[trigger] discard@[k] == CardIdentifier(COPPER),
            forall|k: int| 7 <= k < 7 + j ==> #[trigger] discard@[k] == CardIdentifier(ESTATE),
        decreases 3 - j,
    {
        discard.push(CardIdentifier(ESTATE));
        j = j + 1;
    }
    proof {
        assert(discard@ =~= spec_fresh_discard());
    }
    Player { identifier, name: name.clone(), hand: Vec::new(), deck: Vec::new(), discard }
}

/// The ten cards a player starts with.
pub open spec fn spec_fresh_discard() -> Seq<CardIdentifier> {
    seq![
        CardIdentifier(COPPER),
        CardIdentifier(COPPER),
        CardIdentifier(COPPER),
        CardIdentifier(COPPER),
        CardIdentifier(COPPER),
        CardIdentifier(COPPER),
        CardIdentifier(COPPER),
        CardIdentifier(ESTATE),
        CardIdentifier(ESTATE),
        CardIdentifier(ESTATE),
    ]
}

/// A new game for the named players: fresh players in roster order, the
/// standard supply, and the first player about to start the first turn.
pub fn fresh_game(player_names: &Vec<String>) -> (r: Game)
    requires
        1 <= player_names@.len() <= 255,
    ensures
        r.inv(),
        r.turn == 1,
        r.active_player.0 == 0,
        r.phase == Phase::StartTurn,
        r.actions == 1,
        r.buys == 1,
        r.coins == 0,
        r.current_action_identifier.0 == 0,
        cards::spec_is_standard_piles(r.piles@, player_names@.len() as int),
        r.play_area@.len() == 0,
        r.trash_pile@.len() == 0,
        r.players@.len() == player_names@.len(),
        forall|i: int|
            0 <= i < player_names@.len() ==> (#[trigger] r.players@[i]).identifier
                == PlayerIdentifier(i as u8) && r.players@[i].name@ == player_names@[i]@
                && r.players@[i].hand@.len() == 0 && r.players@[i].deck@.len() == 0
                && r.players@[i].discard@ == spec_fresh_discard(),
        r.pending_decision is None,
        r.pending_effects@.len() == 0,
{
    let mut players: Vec<Player> = Vec::new();
    let mut i: usize = 0;
    while i < player_names.len()
        invariant
            i <= player_names@.len(),
            player_names@.len() <= 255,
            players@.len() == i,
            forall|k: int|
                0 <= k < i ==> (#[trigger] players@[k]).identifier == PlayerIdentifier(k as u8)
                    && players@[k].name@ == player_names@[k]@ && players@[k].hand@.len() == 0
                    && players@[k].deck@.len() == 0 && players@[k].discard@ == spec_fresh_discard()
                    && players@[k].wf(),
        decreases player_names@.len() - i,
    {
        let p = fresh_player(PlayerIdentifier(i as u8), &player_names[i]);
        players.push(p);
        i = i + 1;
    }
    let num_players = players.len() as i32;
    let piles = standard_piles(num_players);
    Game {
        turn: 1,
        active_player: PlayerIdentifier(0),
        phase: Phase::StartTurn,
        actions: 1,
        buys: 1,
        coins: 0,
        current_action_identifier: ActionIdentifier::new(),
        piles,
        play_area: Vec::new(),
        trash_pile: Vec::new(),
        players,
        pending_decision: None,
        pending_effects: Vec::new(),
    }
}

} // verus!

//! The turn machinery of the card game: playing an action card, applying a
//! queued effect, advancing the phases, and resolving a pending decision.
//!
//! Each operation's precondition spells out the game-state facts the
//! design treats as invariants (a played card is in hand, a bought
//! card is affordable and in supply); the surrounding application checks
//! them before calling and aborts loudly on a violation, which is how a
//! broken game invariant must surface.

use vstd::prelude::*;

use vstd::multiset::Multiset;

use crate::cards::{
    self, spec_all_valid, spec_cost, spec_valid_card, CardAction, CardIdentifier, CardType,
    EffectTarget, GainDestination, TrashFollowup,
};
use crate::game::{
    spec_pile_count, spec_piles_valid, Decision, DecisionType, EvalContext, Game, Phase,
    PlayerIdentifier, QueuedEffect, PLAYER_HAND_SIZE,
};

verus! {

/// The turn-scoped counters stay far from the integer limits, so effect
/// arithmetic cannot overflow.
pub open spec fn spec_counters_ok(g: Game) -> bool {
    &&& 0 <= g.actions <= 0x1000_0000
    &&& 0 <= g.buys <= 0x1000_0000
    &&& 0 <= g.coins <= 0x1000_0000
}

/// A queued effect the game can apply: its target is on the roster and its
/// amounts are the small constants card effects carry.
pub open spec fn spec_effect_wf(e: QueuedEffect, g: Game) -> bool {
    match e {
        QueuedEffect::ActionEffect(pid, _, ca) => {
            &&& (pid.0 as int) < g.players@.len()
            &&& (match ca {
                CardAction::DrawCards(n) => 1 <= n <= 100,
                CardAction::PlusActions(n) => 0 <= n <= 100,
                CardAction::PlusBuys(n) => 0 <= n <= 100,
                CardAction::PlusCoins(n) => 0 <= n <= 100,
                CardAction::OpponentsDiscardTo(n) => 0 <= n <= 100,
                CardAction::GainCardCostingUpto(_) => true,
                CardAction::TrashCards(_, f) => (f matches Some(
                    TrashFollowup::ReplaceByCost(_, pc, _),
                ) ==> 0 <= pc <= 1000),
                CardAction::DiscardForEffect(_) => true,
            })
        },
        QueuedEffect::ReactOption(pid, _) => (pid.0 as int) < g.players@.len(),
    }
}

/// The effects queued for one card action: one copy per targeted player,
/// in target order.
pub open spec fn spec_effects_for(
    n: int,
    pid: PlayerIdentifier,
    aid: crate::game::ActionIdentifier,
    action: CardAction,
) -> Seq<QueuedEffect> {
    Seq::new(
        crate::game::spec_targets(n, cards::spec_action_target(action), pid.0).len(),
        |k: int|
            QueuedEffect::ActionEffect(
                crate::game::spec_targets(n, cards::spec_action_target(action), pid.0)[k],
                aid,
                action,
            ),
    )
}

/// The effects queued for a whole list of card actions, in card order.
pub open spec fn spec_queued_effects(
    n: int,
    pid: PlayerIdentifier,
    aid: crate::game::ActionIdentifier,
    actions: Seq<CardAction>,
) -> Seq<QueuedEffect>
    decreases actions.len(),
{
    if actions.len() == 0 {
        Seq::empty()
    } else {
        spec_queued_effects(n, pid, aid, actions.drop_last()) + spec_effects_for(
            n,
            pid,
            aid,
            actions.last(),
        )
    }
}

/// The reaction offers an attack queues: one per opponent, in turn order.
pub open spec fn spec_react_options(
    n: int,
    pid: PlayerIdentifier,
    aid: crate::game::ActionIdentifier,
) -> Seq<QueuedEffect> {
    Seq::new(
        crate::game::spec_targets(n, EffectTarget::Opponents, pid.0).len(),
        |k: int|
            QueuedEffect::ReactOption(
                crate::game::spec_targets(n, EffectTarget::Opponents, pid.0)[k],
                aid,
            ),
    )
}

impl Game {
    /// Applies one queued effect: counters change, a player draws, or a
    /// decision is posted for the targeted player.
    pub fn process_effect(&mut self, e: QueuedEffect, ctx: &mut EvalContext)
        requires
            spec_effect_wf(e, *old(self)),
            spec_counters_ok(*old(self)),
            spec_piles_valid(old(self).piles@),
            forall|i: int| 0 <= i < old(self).players@.len() ==> (#[trigger] old(self).players@[i]).wf(),
        ensures
            final(self).players@.len() == old(self).players@.len(),
            forall|i: int|
                0 <= i < final(self).players@.len() ==> (#[trigger] final(self).players@[i]).wf(),
            final(self).piles == old(self).piles,
            final(self).phase == old(self).phase,
            final(self).turn == old(self).turn,
            final(self).active_player == old(self).active_player,
            old(self).actions <= final(self).actions <= old(self).actions + 100,
            old(self).buys <= final(self).buys <= old(self).buys + 100,
            old(self).coins <= final(self).coins <= old(self).coins + 100,
            final(self).pending_effects == old(self).pending_effects,
    {
        match e {
            QueuedEffect::ActionEffect(pid, _aid, ca) => match ca {
                CardAction::DrawCards(n) => {
                    self.player_draws_cards(pid, n as usize, ctx);
                    proof {
                        lemma_other_players_wf(*old(self), *self, pid);
                    }
                },
                CardAction::PlusActions(n) => {
                    self.actions = self.actions + n;
                },
                CardAction::PlusBuys(n) => {
                    self.buys = self.buys + n;
                },
                CardAction::PlusCoins(n) => {
                    self.coins = self.coins + n;
                },
                CardAction::OpponentsDiscardTo(n) => {
                    self.player_discards_to(pid, n, ctx);
                },
                CardAction::GainCardCostingUpto(n) => {
                    self.player_picks_gain(pid, (0, n), ctx);
                },
                CardAction::TrashCards(card_type, followup) => {
                    self.offer_player_trash(pid, card_type, followup, ctx);
                },
                CardAction::DiscardForEffect(discard_effect) => {
                    self.offer_player_discard(pid, discard_effect, ctx);
                },
            },
            QueuedEffect::ReactOption(pid, aid) => {
                let reactions = cards::filter_by_type(
                    &self.players[pid.0 as usize].hand,
                    &CardType::Reaction,
                );
                if !reactions.is_empty() {
                    proof {
                        lemma_filter_by_type_valid(
                            self.players@[pid.0 as int].hand@,
                            CardType::Reaction,
                        );
                    }
                    self.pending_decision = Some(
                        Decision {
                            player: pid,
                            decision_type: DecisionType::RevealReaction(aid),
                            choices: reactions,
                            range: (0, 1),
                        },
                    );
                }
            },
        }
    }

    /// Plays an action card from the active player's hand: the card moves
    /// to the play area, a fresh action identifier is drawn, opponents of
    /// an attack are offered their reaction, and the card's effects are
    /// queued for their targets.
    pub fn play_action(&mut self, pid: PlayerIdentifier, action: &CardIdentifier, _ctx: &mut EvalContext)
        requires
            old(self).phase == Phase::Action,
            old(self).actions > 0,
            pid == old(self).active_player,
            (pid.0 as int) < old(self).players@.len(),
            1 <= old(self).players@.len() <= 255,
            spec_valid_card(action.0),
            old(self).players@[pid.0 as int].hand@.contains(*action),
            old(self).current_action_identifier.0 < u32::MAX,
            old(self).pending_effects@.len() + 2000 <= usize::MAX,
        ensures
            final(self).players@.len() == old(self).players@.len(),
            forall|x: int|
                0 <= x < old(self).players@.len() && x != pid.0 ==> final(self).players@[x] == old(
                    self,
                ).players@[x],
            final(self).players@[pid.0 as int].hand@.to_multiset() == old(
                self,
            ).players@[pid.0 as int].hand@.to_multiset().remove(*action),
            final(self).players@[pid.0 as int].discard == old(self).players@[pid.0 as int].discard,
            final(self).players@[pid.0 as int].deck == old(self).players@[pid.0 as int].deck,
            final(self).play_area@ == old(self).play_area@.push(*action),
            final(self).current_action_identifier.0 == old(self).current_action_identifier.0 + 1,
            final(self).pending_effects@ == old(self).pending_effects@ + (if cards::spec_is_attack(
                action.0,
            ) {
                spec_react_options(
                    old(self).players@.len() as int,
                    pid,
                    crate::game::ActionIdentifier(
                        (old(self).current_action_identifier.0 + 1) as u32,
                    ),
                )
            } else {
                Seq::empty()
            }) + spec_queued_effects(
                old(self).players@.len() as int,
                pid,
                crate::game::ActionIdentifier((old(self).current_action_identifier.0 + 1) as u32),
                cards::spec_card_effects(action.0),
            ),
            final(self).phase == old(self).phase,
            final(self).actions == old(self).actions,
            final(self).buys == old(self).buys,
            final(self).coins == old(self).coins,
            final(self).piles == old(self).piles,
            final(self).turn == old(self).turn,
            final(self).active_player == old(self).active_player,
            final(self).pending_decision == old(self).pending_decision,
    {
        broadcast use vstd::seq_lib::group_to_multiset_ensures;

        let ghost effects0 = old(self).pending_effects@;
        {
            let player = &mut self.players[pid.0 as usize];
            let ghost hand0 = player.hand@;
            let mut hand_idx: usize = 0;
            while hand_idx < player.hand.len() && !(player.hand[hand_idx] == *action)
                invariant
                    hand_idx <= player.hand@.len(),
                    player.hand@ == hand0,
                    hand0.contains(*action),
                    forall|k: int| 0 <= k < hand_idx ==> hand0[k] != *action,
                decreases player.hand@.len() - hand_idx,
            {
                hand_idx = hand_idx + 1;
            }
            proof {
                if hand_idx == hand0.len() {
                    let w = choose|w: int| 0 <= w < hand0.len() && hand0[w] == *action;
                    assert(false);
                }
            }
            let _removed = player.hand.remove(hand_idx);
        }
        self.play_area.push(*action);
        self.current_action_identifier = self.current_action_identifier.increment();
        let aid = self.current_action_identifier;

        let card = cards::lookup_card(action);
        let ghost mid = *self;
        let ghost nn = self.players@.len() as int;
        let ghost react_part = (if cards::spec_is_attack(action.0) {
            spec_react_options(nn, pid, aid)
        } else {
            Seq::<QueuedEffect>::empty()
        });
        proof {
            assert(aid == crate::game::ActionIdentifier(
                (old(self).current_action_identifier.0 + 1) as u32,
            ));
        }

        if card.is_attack {
            let targets = self.players_for_target(cards::EffectTarget::Opponents, pid);
            let mut t: usize = 0;
            proof {
                assert(self.pending_effects@ =~= effects0 + spec_react_options(nn, pid, aid).take(
                    0,
                ));
            }
            while t < targets.len()
                invariant
                    t <= targets@.len(),
                    targets@.len() < 255,
                    targets@ == crate::game::spec_targets(nn, EffectTarget::Opponents, pid.0),
                    spec_same_but_effects(*self, mid),
                    nn == mid.players@.len(),
                    effects0.len() + 2000 <= usize::MAX,
                    self.pending_effects@ == effects0 + spec_react_options(nn, pid, aid).take(
                        t as int,
                    ),
                decreases targets@.len() - t,
            {
                proof {
                    assert(spec_react_options(nn, pid, aid)[t as int] == QueuedEffect::ReactOption(
                        targets@[t as int],
                        aid,
                    ));
                    assert(spec_react_options(nn, pid, aid).take(t + 1) =~= spec_react_options(
                        nn,
                        pid,
                        aid,
                    ).take(t as int).push(spec_react_options(nn, pid, aid)[t as int]));
                }
                self.pending_effects.push(QueuedEffect::ReactOption(targets[t], aid));
                proof {
                    assert(self.pending_effects@ =~= effects0 + spec_react_options(
                        nn,
                        pid,
                        aid,
                    ).take(t + 1));
                }
                t = t + 1;
            }
            proof {
                assert(spec_react_options(nn, pid, aid).take(
                    spec_react_options(nn, pid, aid).len() as int,
                ) =~= spec_react_options(nn, pid, aid));
                assert(self.pending_effects@ == effects0 + react_part);
            }
        }
        proof {
            if !cards::spec_is_attack(action.0) {
                assert(react_part =~= Seq::<QueuedEffect>::empty());
                assert(self.pending_effects@ =~= effects0 + react_part);
            }
        }

        let ghost ce = cards::spec_card_effects(action.0);
        let mut ei: usize = 0;
        let n_effects = card.action_effects.len();
        proof {
            assert(self.pending_effects@ =~= (effects0 + react_part) + spec_queued_effects(
                nn,
                pid,
                aid,
                ce.take(0),
            ));
        }
        while ei < n_effects
            invariant
                ei <= n_effects,
                n_effects == ce.len() <= 4,
                card.action_effects@ == ce,
                spec_same_but_effects(*self, mid),
                nn == mid.players@.len(),
                1 <= nn <= 255,
                react_part.len() <= 255,
                effects0.len() + 2000 <= usize::MAX,
                self.pending_effects@ == (effects0 + react_part) + spec_queued_effects(
                    nn,
                    pid,
                    aid,
                    ce.take(ei as int),
                ),
                self.pending_effects@.len() <= effects0.len() + 255 + 255 * ei,
            decreases n_effects - ei,
        {
            let e = card.action_effects[ei];
            let ghost pre = self.pending_effects@;
            self.queue_card_effects(pid, aid, &e);
            proof {
                assert(ce.take(ei + 1).drop_last() =~= ce.take(ei as int));
                assert(ce.take(ei + 1).last() == ce[ei as int]);
                assert(self.pending_effects@ =~= pre + spec_effects_for(nn, pid, aid, e));
                assert(self.pending_effects@ =~= (effects0 + react_part) + spec_queued_effects(
                    nn,
                    pid,
                    aid,
                    ce.take(ei + 1),
                ));
            }
            ei = ei + 1;
        }
        proof {
            assert(ce.take(ce.len() as int) =~= ce);
            assert(self.pending_effects@ =~= effects0 + react_part + spec_queued_effects(
                nn,
                pid,
                aid,
                ce,
            ));
        }
    }
}

/// `g2` is `g1` with the pending decision cleared, the phase set to
/// `phase`, and nothing else changed.
pub open spec fn spec_same_cleared(g1: Game, g2: Game, phase: Phase) -> bool {
    &&& g2.pending_decision is None
    &&& g2.phase == phase
    &&& g2.turn == g1.turn
    &&& g2.active_player == g1.active_player
    &&& g2.actions == g1.actions
    &&& g2.buys == g1.buys
    &&& g2.coins == g1.coins
    &&& g2.current_action_identifier == g1.current_action_identifier
    &&& g2.piles == g1.piles
    &&& g2.play_area == g1.play_area
    &&& g2.trash_pile == g1.trash_pile
    &&& g2.players == g1.players
    &&& g2.pending_effects == g1.pending_effects
}

/// `g2` is `g1` with only the pending decision changed.
pub open spec fn spec_same_except_decision(g1: Game, g2: Game) -> bool {
    &&& g2.phase == g1.phase
    &&& g2.turn == g1.turn
    &&& g2.active_player == g1.active_player
    &&& g2.actions == g1.actions
    &&& g2.buys == g1.buys
    &&& g2.coins == g1.coins
    &&& g2.current_action_identifier == g1.current_action_identifier
    &&& g2.piles == g1.piles
    &&& g2.play_area == g1.play_area
    &&& g2.trash_pile == g1.trash_pile
    &&& g2.players == g1.players
    &&& g2.pending_effects == g1.pending_effects
}

/// How the answer to the pending decision of `g1` changed the game: the
/// dispatch of the design, case by case.  Declining (an empty answer)
/// advances the phase where the design says so; acting applies exactly the
/// per-action operation.
pub open spec fn spec_resolved(g1: Game, result: Seq<CardIdentifier>, g2: Game) -> bool
    recommends
        g1.pending_decision is Some,
{
    let d = g1.pending_decision->0;
    let pid = d.player;
    match d.decision_type {
        DecisionType::PlayAction => {
            if result.len() == 1 {
                &&& g2.players@.len() == g1.players@.len()
                &&& (forall|x: int|
                    0 <= x < g1.players@.len() && x != pid.0 ==> g2.players@[x] == g1.players@[x])
                &&& g2.players@[pid.0 as int].hand@.to_multiset()
                    == g1.players@[pid.0 as int].hand@.to_multiset().remove(result[0])
                &&& g2.players@[pid.0 as int].discard == g1.players@[pid.0 as int].discard
                &&& g2.players@[pid.0 as int].deck == g1.players@[pid.0 as int].deck
                &&& g2.play_area@ == g1.play_area@.push(result[0])
                &&& g2.current_action_identifier.0 == g1.current_action_identifier.0 + 1
                &&& g2.pending_effects@ == g1.pending_effects@ + (if cards::spec_is_attack(
                    result[0].0,
                ) {
                    spec_react_options(
                        g1.players@.len() as int,
                        pid,
                        crate::game::ActionIdentifier(
                            (g1.current_action_identifier.0 + 1) as u32,
                        ),
                    )
                } else {
                    Seq::empty()
                }) + spec_queued_effects(
                    g1.players@.len() as int,
                    pid,
                    crate::game::ActionIdentifier((g1.current_action_identifier.0 + 1) as u32),
                    cards::spec_card_effects(result[0].0),
                )
                &&& g2.phase == g1.phase
                &&& g2.actions == g1.actions
                &&& g2.buys == g1.buys
                &&& g2.coins == g1.coins
                &&& g2.turn == g1.turn
                &&& g2.piles == g1.piles
                &&& g2.pending_decision is None
            } else {
                spec_same_cleared(g1, g2, Phase::BuyPlayTreasure)
            }
        },
        DecisionType::PlayTreasures => {
            &&& g2.phase == Phase::BuyPurchaseCard
            &&& g2.pending_decision is None
            &&& g2.turn == g1.turn
            &&& g2.piles == g1.piles
            &&& g2.buys == g1.buys
            &&& (result.len() == 0 ==> g2.coins == g1.coins && g2.play_area == g1.play_area
                && g2.players == g1.players && g2.pending_effects == g1.pending_effects)
            &&& (result.len() > 0 ==> {
                &&& g2.coins == g1.coins + Game::spec_coin_sum(result)
                &&& g2.play_area@ == g1.play_area@ + result
                &&& g2.players@.len() == g1.players@.len()
                &&& (forall|x: int|
                    0 <= x < g1.players@.len() && x != pid.0 ==> g2.players@[x]
                        == g1.players@[x])
                &&& g2.players@[pid.0 as int].hand@.to_multiset()
                    == g1.players@[pid.0 as int].hand@.to_multiset().sub(result.to_multiset())
            })
        },
        DecisionType::BuyCard => {
            if result.len() == 1 {
                &&& g2.buys == g1.buys - 1
                &&& g2.coins == g1.coins - spec_cost(result[0].0)
                &&& spec_pile_count(g2.piles@, result[0].0) == spec_pile_count(
                    g1.piles@,
                    result[0].0,
                ) - 1
                &&& (forall|id: u16|
                    id != result[0].0 ==> spec_pile_count(g2.piles@, id) == spec_pile_count(
                        g1.piles@,
                        id,
                    ))
                &&& g2.players@.len() == g1.players@.len()
                &&& (forall|x: int|
                    0 <= x < g1.players@.len() && x != pid.0 ==> g2.players@[x]
                        == g1.players@[x])
                &&& g2.players@[pid.0 as int].discard@
                    == g1.players@[pid.0 as int].discard@.push(result[0])
                &&& g2.players@[pid.0 as int].hand == g1.players@[pid.0 as int].hand
                &&& g2.phase == g1.phase
                &&& g2.turn == g1.turn
                &&& g2.pending_decision is None
            } else {
                spec_same_cleared(g1, g2, Phase::Cleanup)
            }
        },
        DecisionType::DiscardCards(_) => {
            &&& g2.turn == g1.turn
            &&& g2.phase == g1.phase
            &&& g2.coins == g1.coins
            &&& g2.piles == g1.piles
            &&& g2.pending_decision is None
            &&& g2.players@.len() == g1.players@.len()
            &&& (forall|x: int|
                0 <= x < g1.players@.len() && x != pid.0 ==> g2.players@[x] == g1.players@[x])
            &&& (result.len() == 0 ==> g2.players == g1.players && g2.pending_effects
                == g1.pending_effects && g2.play_area == g1.play_area)
            &&& (result.len() > 0 ==> g2.players@[pid.0 as int].spec_all_cards().to_multiset()
                == g1.players@[pid.0 as int].spec_all_cards().to_multiset())
        },
        DecisionType::GainCard(dest) => {
            if result.len() == 1 {
                &&& spec_pile_count(g2.piles@, result[0].0) == spec_pile_count(
                    g1.piles@,
                    result[0].0,
                ) - 1
                &&& (forall|id: u16|
                    id != result[0].0 ==> spec_pile_count(g2.piles@, id) == spec_pile_count(
                        g1.piles@,
                        id,
                    ))
                &&& g2.players@.len() == g1.players@.len()
                &&& (forall|x: int|
                    0 <= x < g1.players@.len() && x != pid.0 ==> g2.players@[x]
                        == g1.players@[x])
                &&& (dest == GainDestination::GainToDiscard ==> g2.players@[pid.0 as int].discard@
                    == g1.players@[pid.0 as int].discard@.push(result[0])
                    && g2.players@[pid.0 as int].hand == g1.players@[pid.0 as int].hand)
                &&& (dest == GainDestination::GainToHand ==> g2.players@[pid.0 as int].hand@
                    == g1.players@[pid.0 as int].hand@.push(result[0])
                    && g2.players@[pid.0 as int].discard == g1.players@[pid.0 as int].discard)
                &&& g2.phase == g1.phase
                &&& g2.turn == g1.turn
                &&& g2.coins == g1.coins
                &&& g2.buys == g1.buys
                &&& g2.pending_decision is None
            } else {
                spec_same_except_decision(g1, g2) && g2.pending_decision is None
            }
        },
        DecisionType::RevealReaction(aid) => {
            &&& g2.turn == g1.turn
            &&& g2.phase == g1.phase
            &&& g2.piles == g1.piles
            &&& g2.players == g1.players
            &&& g2.pending_decision is None
            &&& (result.len() > 0 ==> g2.pending_effects@ == crate::game::spec_without_attack(
                g1.pending_effects@,
                pid,
                aid,
            ))
            &&& (result.len() == 0 ==> g2.pending_effects == g1.pending_effects)
        },
        DecisionType::TrashCards(f) => {
            &&& g2.turn == g1.turn
            &&& g2.phase == g1.phase
            &&& g2.coins == g1.coins
            &&& g2.piles == g1.piles
            &&& g2.players@.len() == g1.players@.len()
            &&& (forall|x: int|
                0 <= x < g1.players@.len() && x != pid.0 ==> g2.players@[x] == g1.players@[x])
            &&& (result.len() == 0 ==> g2.players == g1.players && g2.trash_pile == g1.trash_pile
                && g2.pending_decision is None)
            &&& (result.len() > 0 ==> {
                &&& g2.trash_pile@ == g1.trash_pile@ + result
                &&& g2.players@[pid.0 as int].hand@.to_multiset()
                    == g1.players@[pid.0 as int].hand@.to_multiset().sub(result.to_multiset())
                &&& (f is None ==> g2.pending_decision is None)
            })
        },
    }
}

/// What a well-formed answer to a pending decision looks like: the facts
/// the design asserts before acting on a decision's result.
pub open spec fn spec_resolution_ok(g: Game, d: Decision, result: Seq<CardIdentifier>) -> bool {
    &&& 1 <= g.players@.len() <= 255
    &&& (d.player.0 as int) < g.players@.len()
    &&& (match d.decision_type {
        DecisionType::PlayAction => {
            &&& result.len() <= 1
            &&& (result.len() == 1 ==> {
                &&& g.phase == Phase::Action
                &&& g.actions > 0
                &&& d.player == g.active_player
                &&& spec_valid_card(result[0].0)
                &&& g.players@[d.player.0 as int].hand@.contains(result[0])
                &&& g.current_action_identifier.0 < u32::MAX
                &&& g.pending_effects@.len() + 2000 <= usize::MAX
            })
        },
        DecisionType::PlayTreasures => (result.len() > 0 ==> {
            &&& spec_all_valid(result)
            &&& (forall|k: int|
                0 <= k < result.len() ==> cards::spec_coin_value(
                    (#[trigger] result[k]).0,
                ) is Some)
            &&& (forall|c: CardIdentifier| #[trigger] result.to_multiset().count(c)
                <= g.players@[d.player.0 as int].hand@.to_multiset().count(c))
            &&& 0 <= g.coins
            &&& g.coins + 3 * result.len() <= i32::MAX
        }),
        DecisionType::BuyCard => {
            &&& result.len() <= 1
            &&& (result.len() == 1 ==> {
                &&& spec_valid_card(result[0].0)
                &&& g.buys > 0
                &&& g.coins >= spec_cost(result[0].0)
                &&& spec_pile_count(g.piles@, result[0].0) > 0
            })
        },
        DecisionType::DiscardCards(_) => (result.len() > 0 ==> {
            &&& g.players@[d.player.0 as int].wf()
            &&& (forall|c: CardIdentifier| #[trigger] result.to_multiset().count(c)
                <= g.players@[d.player.0 as int].hand@.to_multiset().count(c))
        }),
        DecisionType::GainCard(_) => {
            &&& result.len() <= 1
            &&& (result.len() == 1 ==> spec_pile_count(g.piles@, result[0].0) > 0)
        },
        DecisionType::RevealReaction(_) => (result.len() > 0 ==> spec_valid_card(result[0].0)
            && cards::spec_is_reaction(result[0].0)),
        DecisionType::TrashCards(f) => (result.len() > 0 ==> {
            &&& spec_all_valid(result)
            &&& g.players@[d.player.0 as int].wf()
            &&& spec_piles_valid(g.piles@)
            &&& (forall|c: CardIdentifier| #[trigger] result.to_multiset().count(c)
                <= g.players@[d.player.0 as int].hand@.to_multiset().count(c))
            &&& (f is Some ==> result.len() == 1)
            &&& (f matches Some(TrashFollowup::ReplaceByCost(_, pc, _)) ==> 0 <= pc <= 1000)
        }),
    })
}

impl Game {
    /// Acts on the answer to the pending decision: plays the chosen action
    /// or treasures, buys, gains, discards, trashes or reveals, and
    /// advances the phase where declining demands it.
    pub fn resolve_decision(&mut self, result: Vec<CardIdentifier>, ctx: &mut EvalContext)
        requires
            old(self).pending_decision matches Some(d) && spec_resolution_ok(
                *old(self),
                d,
                result@,
            ),
        ensures
            final(self).players@.len() == old(self).players@.len(),
            final(self).turn == old(self).turn,
            spec_resolved(*old(self), result@, *final(self)),
    {
        let ghost g1 = *old(self);
        let d = self.pending_decision.as_ref().unwrap().clone();
        self.pending_decision = None;
        proof {
            assert(d.player == g1.pending_decision->0.player);
            assert(d.decision_type == g1.pending_decision->0.decision_type);
        }
        match d.decision_type {
            DecisionType::PlayAction => {
                if result.len() == 1 {
                    let ci = result[0];
                    self.play_action(d.player, &ci, ctx);
                } else {
                    self.phase = Phase::BuyPlayTreasure;
                }
                proof {
                    assert(spec_resolved(g1, result@, *self));
                }
            },
            DecisionType::PlayTreasures => {
                if result.len() > 0 {
                    self.play_treasures(d.player, &result, ctx);
                }
                self.phase = Phase::BuyPurchaseCard;
                proof {
                    assert(spec_resolved(g1, result@, *self));
                }
            },
            DecisionType::BuyCard => {
                if result.len() == 1 {
                    let ci = result[0];
                    self.buy_card(d.player, &ci, ctx);
                } else {
                    self.phase = Phase::Cleanup;
                }
                proof {
                    assert(spec_resolved(g1, result@, *self));
                }
            },
            DecisionType::DiscardCards(maybe_followup) => {
                let ghost result0 = result@;
                if result.len() > 0 {
                    self.player_discards(d.player, result, maybe_followup, ctx);
                }
                proof {
                    assert(spec_resolved(g1, result0, *self));
                }
            },
            DecisionType::GainCard(dest) => {
                if result.len() == 1 {
                    let ci = result[0];
                    self.gain_card(d.player, &ci, dest, ctx);
                }
                proof {
                    assert(spec_resolved(g1, result@, *self));
                }
            },
            DecisionType::RevealReaction(aid) => {
                if result.len() > 0 {
                    let ci = result[0];
                    self.player_reveals_reaction(d.player, &ci, aid, ctx);
                }
                proof {
                    assert(spec_resolved(g1, result@, *self));
                }
            },
            DecisionType::TrashCards(maybe_followup) => {
                let ghost result0 = result@;
                if result.len() > 0 {
                    self.trash_cards(d.player, result, maybe_followup, ctx);
                }
                proof {
                    assert(spec_resolved(g1, result0, *self));
                }
            },
        }
    }

    /// How one step of the turn machinery changed the game: with effects
    /// queued, the first is removed and applied; otherwise the phase
    /// machine steps — StartTurn to Action, Action and the buy phases
    /// posting their decision (or moving on when there is nothing to
    /// choose), Cleanup discarding the hand and play area and drawing a
    /// fresh hand, EndTurn handing play to the next player.
    pub open spec fn spec_advanced(g1: Game, g2: Game) -> bool
        recommends
            g1.pending_decision is None,
    {
        if g1.pending_effects@.len() > 0 {
            &&& g2.pending_effects@ == g1.pending_effects@.drop_first()
            &&& g2.phase == g1.phase
            &&& g2.turn == g1.turn
            &&& g2.active_player == g1.active_player
            &&& g2.piles == g1.piles
            &&& g1.actions <= g2.actions <= g1.actions + 100
            &&& g1.buys <= g2.buys <= g1.buys + 100
            &&& g1.coins <= g2.coins <= g1.coins + 100
        } else {
            let active = g1.active_player;
            let hand = g1.players@[active.0 as int].hand@;
            match g1.phase {
                Phase::StartTurn => spec_same_cleared(g1, g2, Phase::Action),
                Phase::Action => {
                    if g1.actions == 0 || cards::spec_filter_by_type(
                        hand,
                        CardType::Action,
                    ).len() == 0 {
                        spec_same_cleared(g1, g2, Phase::BuyPlayTreasure)
                    } else {
                        &&& spec_same_except_decision(g1, g2)
                        &&& (g2.pending_decision matches Some(nd) && nd.player == active
                            && nd.decision_type == DecisionType::PlayAction && nd.choices@
                            == cards::spec_filter_by_type(hand, CardType::Action) && nd.range.0
                            == 0 && nd.range.1 == 1)
                    }
                },
                Phase::BuyPlayTreasure => {
                    if cards::spec_filter_by_type(hand, CardType::Treasure).len() == 0 {
                        spec_same_cleared(g1, g2, Phase::BuyPurchaseCard)
                    } else {
                        &&& spec_same_except_decision(g1, g2)
                        &&& (g2.pending_decision matches Some(nd) && nd.player == active
                            && nd.decision_type == DecisionType::PlayTreasures && nd.choices@
                            == cards::spec_filter_by_type(hand, CardType::Treasure) && nd.range.0
                            == 0 && nd.range.1 == cards::spec_filter_by_type(
                            hand,
                            CardType::Treasure,
                        ).len())
                    }
                },
                Phase::BuyPurchaseCard => {
                    if g1.buys == 0 {
                        spec_same_cleared(g1, g2, Phase::Cleanup)
                    } else {
                        &&& spec_same_except_decision(g1, g2)
                        &&& (g2.pending_decision matches Some(nd) && nd.player == active
                            && nd.decision_type == DecisionType::BuyCard && nd.choices@
                            == crate::game::spec_gainable(g1.piles@, 0, g1.coins as int)
                            && nd.range.0 == 0 && nd.range.1 == 1)
                    }
                },
                Phase::Cleanup => {
                    &&& g2.phase == Phase::EndTurn
                    &&& g2.play_area@.len() == 0
                    &&& g2.players@.len() == g1.players@.len()
                    &&& (forall|x: int|
                        0 <= x < g1.players@.len() && x != active.0 ==> g2.players@[x]
                            == g1.players@[x])
                    &&& g2.players@[active.0 as int].spec_all_cards().to_multiset()
                        == g1.players@[active.0 as int].spec_all_cards().to_multiset().add(
                        g1.play_area@.to_multiset(),
                    )
                    &&& g2.piles == g1.piles
                    &&& g2.turn == g1.turn
                    &&& g2.active_player == g1.active_player
                    &&& g2.pending_decision is None
                },
                Phase::EndTurn => {
                    &&& g2.phase == Phase::StartTurn
                    &&& (if active.0 + 1 == g1.players@.len() {
                        g2.turn == g1.turn + 1 && g2.active_player.0 == 0
                    } else {
                        g2.turn == g1.turn && g2.active_player.0 == active.0 + 1
                    })
                    &&& g2.actions == 1
                    &&& g2.buys == 1
                    &&& g2.coins == 0
                    &&& g2.current_action_identifier.0 == 0
                    &&& g2.players == g1.players
                    &&& g2.piles == g1.piles
                    &&& g2.pending_decision is None
                },
            }
        }
    }

    /// One step of the turn machinery: applies the next queued effect if
    /// one waits, otherwise advances the phase — posting the phase's
    /// decision (action to play, treasures to play, card to buy), cleaning
    /// up the turn, or handing play to the next player.
    pub fn advance_game(&mut self, ctx: &mut EvalContext)
        requires
            old(self).pending_decision is None,
            1 <= old(self).players@.len() <= 255,
            (old(self).active_player.0 as int) < old(self).players@.len(),
            forall|i: int| 0 <= i < old(self).players@.len() ==> (#[trigger] old(self).players@[i]).wf(),
            spec_piles_valid(old(self).piles@),
            spec_counters_ok(*old(self)),
            old(self).turn < i32::MAX,
            forall|k: int|
                0 <= k < old(self).pending_effects@.len() ==> spec_effect_wf(
                    #[trigger] old(self).pending_effects@[k],
                    *old(self),
                ),
            spec_all_valid(old(self).play_area@),
            old(self).players@[old(self).active_player.0 as int].spec_all_cards().len() + old(
                self,
            ).play_area@.len() <= crate::game::MAX_PLAYER_CARDS,
        ensures
            final(self).players@.len() == old(self).players@.len(),
            forall|i: int|
                0 <= i < final(self).players@.len() ==> (#[trigger] final(self).players@[i]).wf(),
            final(self).piles == old(self).piles,
            old(self).turn <= final(self).turn <= old(self).turn + 1,
            Self::spec_advanced(*old(self), *final(self)),
    {
        let ghost g1 = *old(self);
        if self.pending_effects.len() > 0 {
            let e = self.pending_effects.remove(0);
            proof {
                assert(self.pending_effects@ =~= g1.pending_effects@.drop_first());
            }
            self.process_effect(e, ctx);
            return ;
        }

        match self.phase {
            Phase::StartTurn => {
                self.phase = Phase::Action;
            },
            Phase::Action => {
                if self.actions == 0 {
                    self.phase = Phase::BuyPlayTreasure;
                    return ;
                }

                let action_cards = cards::filter_by_type(
                    &self.players[self.active_player.0 as usize].hand,
                    &CardType::Action,
                );

                if action_cards.is_empty() {
                    self.phase = Phase::BuyPlayTreasure;
                    return ;
                }

                let active = self.active_player;
                self.pending_decision = Some(
                    Decision {
                        player: active,
                        decision_type: DecisionType::PlayAction,
                        choices: action_cards,
                        range: (0, 1),
                    },
                );
            },
            Phase::BuyPlayTreasure => {
                let treasures = cards::filter_by_type(
                    &self.players[self.active_player.0 as usize].hand,
                    &CardType::Treasure,
                );

                if treasures.is_empty() {
                    self.phase = Phase::BuyPurchaseCard;
                } else {
                    let treasure_len = treasures.len();
                    let active = self.active_player;
                    self.pending_decision = Some(
                        Decision {
                            player: active,
                            decision_type: DecisionType::PlayTreasures,
                            choices: treasures,
                            range: (0, treasure_len),
                        },
                    );
                }
            },
            Phase::BuyPurchaseCard => {
                if self.buys == 0 {
                    self.phase = Phase::Cleanup;
                } else {
                    let coins = self.coins;
                    let buyable = self.gainable_cards_costing((0, coins));
                    let active = self.active_player;
                    self.pending_decision = Some(
                        Decision {
                            player: active,
                            decision_type: DecisionType::BuyCard,
                            choices: buyable,
                            range: (0, 1),
                        },
                    );
                }
            },
            Phase::Cleanup => {
                let active = self.active_player;
                let play_copy = crate::util::copy_cards(&self.play_area);
                {
                    let player = &mut self.players[active.0 as usize];
                    let ghost before = *player;
                    player.discard_hand(ctx);
                    crate::util::append_cards(&mut player.discard, &play_copy);
                    proof {
                        assert forall|k: int|
                            0 <= k < player.discard@.len() implies spec_valid_card(
                            #[trigger] player.discard@[k].0,
                        ) by {
                            let mid_len = before.discard@.len() + before.hand@.len();
                            if k < before.discard@.len() {
                                assert(player.discard@[k] == before.discard@[k]);
                            } else if k < mid_len {
                                assert(player.discard@[k] == before.hand@[k
                                    - before.discard@.len()]);
                            } else {
                                assert(player.discard@[k] == play_copy@[k - mid_len]);
                            }
                        }
                        assert(player.wf());
                        broadcast use vstd::seq_lib::lemma_multiset_commutative;
                        broadcast use vstd::seq_lib::group_to_multiset_ensures;
                        broadcast use vstd::multiset::group_multiset_axioms;

                        assert(player.spec_all_cards().to_multiset()
                            =~= before.spec_all_cards().to_multiset().add(
                            play_copy@.to_multiset(),
                        )) by {
                            assert(player.spec_all_cards() =~= (player.hand@ + before.deck@) + ((
                            before.discard@ + before.hand@) + play_copy@));
                            assert(player.hand@ =~= Seq::<CardIdentifier>::empty());
                            assert(Seq::<CardIdentifier>::empty().to_multiset()
                                =~= Multiset::<CardIdentifier>::empty());
                            assert(before.spec_all_cards() =~= (before.hand@ + before.deck@)
                                + before.discard@);
                        }
                    }
                }
                proof {
                    assert(self.players@[active.0 as int].spec_all_cards().to_multiset()
                        == g1.players@[active.0 as int].spec_all_cards().to_multiset().add(
                        g1.play_area@.to_multiset(),
                    ));
                }
                self.play_area.clear();
                self.player_draws_cards(active, PLAYER_HAND_SIZE, ctx);
                self.phase = Phase::EndTurn;
                proof {
                    lemma_other_players_wf(*old(self), *self, active);
                    assert(Self::spec_advanced(g1, *self));
                }
            },
            Phase::EndTurn => {
                self.next_turn();
            },
        }
    }
}

/// Two game states that agree on everything but the queued effects.
pub open spec fn spec_same_but_effects(a: Game, b: Game) -> bool {
    &&& a.turn == b.turn
    &&& a.active_player == b.active_player
    &&& a.phase == b.phase
    &&& a.actions == b.actions
    &&& a.buys == b.buys
    &&& a.coins == b.coins
    &&& a.current_action_identifier == b.current_action_identifier
    &&& a.piles == b.piles
    &&& a.play_area == b.play_area
    &&& a.trash_pile == b.trash_pile
    &&& a.players == b.players
    &&& a.pending_decision == b.pending_decision
}

/// Players other than the one a draw touched keep their well-formedness.
proof fn lemma_other_players_wf(g1: Game, g2: Game, pid: PlayerIdentifier)
    requires
        forall|i: int| 0 <= i < g1.players@.len() ==> (#[trigger] g1.players@[i]).wf(),
        g2.players@.len() == g1.players@.len(),
        forall|x: int|
            0 <= x < g1.players@.len() && x != pid.0 ==> g2.players@[x] == g1.players@[x],
        (pid.0 as int) < g1.players@.len() ==> g2.players@[pid.0 as int].wf(),
    ensures
        forall|i: int| 0 <= i < g2.players@.len() ==> (#[trigger] g2.players@[i]).wf(),
{
}

/// Cards selected from a valid hand by type are valid.
proof fn lemma_filter_by_type_valid(hand: Seq<CardIdentifier>, t: CardType)
    requires
        spec_all_valid(hand),
    ensures
        spec_all_valid(cards::spec_filter_by_type(hand, t)),
    decreases hand.len(),
{
    if hand.len() > 0 {
        assert(spec_all_valid(hand.drop_last())) by {
            assert(forall|k: int| 0 <= k < hand.len() - 1 ==> hand.drop_last()[k] == hand[k]);
        }
        lemma_filter_by_type_valid(hand.drop_last(), t);
        let rest = cards::spec_filter_by_type(hand.drop_last(), t);
        let whole = cards::spec_filter_by_type(hand, t);
        assert forall|k: int| 0 <= k < whole.len() implies spec_valid_card(
            #[trigger] whole[k].0,
        ) by {
            if k < rest.len() {
                assert(whole[k] == rest[k]);
            } else {
                assert(whole[k] == hand.last());
            }
        }
    }
}

} // verus!

use tactician::cards::{
    CardAction, CardIdentifier, CardType, EffectTarget, GainDestination, TrashFollowup, COPPER,
    ESTATE, MILITIA, MOAT, PROVINCE, SILVER,
};
use tactician::game::{
    fresh_game, fresh_player, ActionIdentifier, Decision, DecisionType, EvalContext, Phase,
    PlayerIdentifier, QueuedEffect,
};
use tactician::rng::randomly_seeded_weak_rng;
use tactician::search_decider::{all_moves_for_decision, hard_coded_decision};
use tactician::util::subtract_vector;

#[test]
fn test_player_targets() {
    let names = vec!["Player 1".into(), "Player 2".into(), "Player 3".into()];
    let g = fresh_game(&names);

    assert_eq!(
        g.players_for_target(EffectTarget::ActivePlayer, PlayerIdentifier(1))[0],
        PlayerIdentifier(1)
    );

    assert_eq!(
        g.players_for_target(EffectTarget::Opponents, PlayerIdentifier(1)),
        vec![PlayerIdentifier(2), PlayerIdentifier(0)]
    );

    assert_eq!(
        g.players_for_target(EffectTarget::AllPlayers, PlayerIdentifier(1)),
        vec![
            PlayerIdentifier(1),
            PlayerIdentifier(2),
            PlayerIdentifier(0),
        ]
    );
}

#[test]
fn test_fresh_game() {
    let names = vec!["Player 1".to_string(), "Player 2".to_string()];
    let g = fresh_game(&names);
    assert_eq!(g.turn, 1);
    assert_eq!(g.active_player, PlayerIdentifier(0));
    assert_eq!(g.phase, Phase::StartTurn);
    assert_eq!(g.players.len(), 2);
    assert_eq!(g.players[0].discard.len(), 10);
    assert_eq!(g.players[0].all_cards().len(), 10);
    assert!(g.pending_decision.is_none());
    assert!(!g.is_game_over());
}

#[test]
fn test_fresh_player_cards() {
    let p = fresh_player(PlayerIdentifier(0), &"Test Player".to_string());
    let all = p.all_cards();
    assert_eq!(all.len(), 10);
    let coppers = all.iter().filter(|c| c.0 == COPPER).count();
    let estates = all.iter().filter(|c| c.0 == ESTATE).count();
    assert_eq!(coppers, 7);
    assert_eq!(estates, 3);
}

#[test]
fn test_next_turn_wraps() {
    let names = vec!["Player 1".to_string(), "Player 2".to_string()];
    let mut g = fresh_game(&names);
    g.coins = 5;
    g.next_turn();
    assert_eq!(g.active_player, PlayerIdentifier(1));
    assert_eq!(g.turn, 1);
    assert_eq!(g.coins, 0);
    g.next_turn();
    assert_eq!(g.active_player, PlayerIdentifier(0));
    assert_eq!(g.turn, 2);
}

#[test]
fn test_is_game_over_on_empty_provinces() {
    let names = vec!["Player 1".to_string(), "Player 2".to_string()];
    let mut g = fresh_game(&names);
    assert!(!g.is_game_over());
    g.phase = Phase::EndTurn;
    assert!(!g.is_game_over());
    for entry in g.piles.iter_mut() {
        if entry.0 .0 == PROVINCE {
            entry.1 = 0;
        }
    }
    assert!(g.is_game_over());
}

#[test]
fn test_is_game_over_on_three_empty_piles() {
    let names = vec!["Player 1".to_string(), "Player 2".to_string()];
    let mut g = fresh_game(&names);
    g.phase = Phase::EndTurn;
    for entry in g.piles.iter_mut() {
        if entry.0 .0 == COPPER || entry.0 .0 == SILVER || entry.0 .0 == ESTATE {
            entry.1 = 0;
        }
    }
    assert!(g.is_game_over());
}

#[test]
fn test_winning_players_tie() {
    // Both players hold the same starting cards and have taken one turn
    // each: both share the best (points, turns) pair and both win.
    let names = vec!["Player 1".to_string(), "Player 2".to_string()];
    let mut g = fresh_game(&names);
    g.active_player = PlayerIdentifier(1);
    let winners = g.winning_players();
    assert_eq!(winners, vec![PlayerIdentifier(0), PlayerIdentifier(1)]);
}

#[test]
fn test_winning_players_by_points() {
    let names = vec!["Player 1".to_string(), "Player 2".to_string()];
    let mut g = fresh_game(&names);
    g.active_player = PlayerIdentifier(1);
    g.players[1].discard.push(CardIdentifier(PROVINCE));
    let winners = g.winning_players();
    assert_eq!(winners, vec![PlayerIdentifier(1)]);
}

#[test]
fn test_winning_players_fewer_turns_break_ties() {
    // Equal points, but player 2 has not finished the current turn: it
    // used one turn fewer and wins the tie-break.
    let names = vec!["Player 1".to_string(), "Player 2".to_string()];
    let mut g = fresh_game(&names);
    g.turn = 5;
    g.active_player = PlayerIdentifier(0);
    let winners = g.winning_players();
    assert_eq!(winners, vec![PlayerIdentifier(1)]);
}

#[test]
fn test_gainable_cards_costing() {
    let names = vec!["Player 1".to_string(), "Player 2".to_string()];
    let g = fresh_game(&names);
    let cheap = g.gainable_cards_costing((0, 2));
    // Estate (2), Copper (0), Curse (0), Cellar (2) and Moat (2) cost at
    // most two.
    assert_eq!(cheap.len(), 5);
    assert!(cheap.contains(&CardIdentifier(COPPER)));
    assert!(cheap.contains(&CardIdentifier(ESTATE)));
    let none = g.gainable_cards_costing((9, 20));
    assert!(none.is_empty());
}

#[test]
fn test_subtract_vector() {
    let mut vs = vec![
        CardIdentifier(COPPER),
        CardIdentifier(ESTATE),
        CardIdentifier(COPPER),
        CardIdentifier(SILVER),
    ];
    let s = vec![CardIdentifier(COPPER), CardIdentifier(SILVER)];
    subtract_vector(&mut vs, &s);
    assert_eq!(vs, vec![CardIdentifier(ESTATE), CardIdentifier(COPPER)]);
}

#[test]
fn test_hard_coded_decision() {
    let d = Decision {
        player: PlayerIdentifier(0),
        decision_type: DecisionType::PlayTreasures,
        choices: vec![CardIdentifier(COPPER), CardIdentifier(SILVER)],
        range: (0, 2),
    };
    let forced = hard_coded_decision(&d).unwrap();
    assert_eq!(forced, d.choices);

    let buy = Decision {
        player: PlayerIdentifier(0),
        decision_type: DecisionType::BuyCard,
        choices: vec![CardIdentifier(COPPER)],
        range: (0, 1),
    };
    assert!(hard_coded_decision(&buy).is_none());
}

#[test]
fn test_all_moves_for_decision() {
    let a = CardIdentifier(COPPER);
    let b = CardIdentifier(SILVER);
    let c = CardIdentifier(ESTATE);
    let d = Decision {
        player: PlayerIdentifier(0),
        decision_type: DecisionType::DiscardCards(None),
        choices: vec![a, b, c],
        range: (0, 2),
    };
    let moves = all_moves_for_decision(&d);
    assert_eq!(
        moves,
        vec![
            vec![],
            vec![a],
            vec![b],
            vec![c],
            vec![a, b],
            vec![a, c],
            vec![b, c],
        ]
    );

    let exact = Decision {
        player: PlayerIdentifier(0),
        decision_type: DecisionType::DiscardCards(None),
        choices: vec![a, b, c],
        range: (2, 2),
    };
    let moves2 = all_moves_for_decision(&exact);
    assert_eq!(moves2, vec![vec![a, b], vec![a, c], vec![b, c]]);
}

#[test]
fn test_action_identifier_increment() {
    let aid = ActionIdentifier::new();
    assert_eq!(aid.0, 0);
    assert_eq!(aid.increment().0, 1);
}

#[test]
fn test_draw() {
    let mut ctx = EvalContext { debug: false, rng: randomly_seeded_weak_rng() };
    let mut p = fresh_player(PlayerIdentifier(0), &"Test Player".to_string());
    p.draw_cards(5, &mut ctx);
    assert_eq!(p.hand.len(), 5);
    assert_eq!(p.deck.len(), 5);
    assert_eq!(p.all_cards().len(), 10);
    p.discard_hand(&mut ctx);
    assert_eq!(p.hand.len(), 0);
    assert_eq!(p.discard.len(), 5);
    assert_eq!(p.all_cards().len(), 10);
    p.draw_cards(5, &mut ctx);
    assert_eq!(p.deck.len(), 0);
    assert_eq!(p.hand.len(), 5);
    assert_eq!(p.discard.len(), 5);
    assert_eq!(p.all_cards().len(), 10);
    p.discard_hand(&mut ctx);
    p.draw_cards(5, &mut ctx);
    assert_eq!(p.discard.len(), 0);
    assert_eq!(p.deck.len(), 5);
    assert_eq!(p.hand.len(), 5);
    assert_eq!(p.all_cards().len(), 10);
}

#[test]
fn test_buy_card() {
    let names = vec!["Player 1".to_string(), "Player 2".to_string()];
    let mut g = fresh_game(&names);
    let mut ctx = EvalContext { debug: false, rng: randomly_seeded_weak_rng() };
    g.coins = 6;
    g.buys = 1;
    g.buy_card(PlayerIdentifier(0), &CardIdentifier(SILVER), &mut ctx);
    assert_eq!(g.coins, 3);
    assert_eq!(g.buys, 0);
    assert_eq!(g.players[0].discard.last(), Some(&CardIdentifier(SILVER)));
    let silver_pile = g.piles.iter().find(|e| e.0 .0 == SILVER).unwrap().1;
    assert_eq!(silver_pile, 39);
}

#[test]
fn test_gain_card_to_hand() {
    let names = vec!["Player 1".to_string(), "Player 2".to_string()];
    let mut g = fresh_game(&names);
    let mut ctx = EvalContext { debug: false, rng: randomly_seeded_weak_rng() };
    g.gain_card(
        PlayerIdentifier(1),
        &CardIdentifier(ESTATE),
        tactician::cards::GainDestination::GainToHand,
        &mut ctx,
    );
    assert_eq!(g.players[1].hand.last(), Some(&CardIdentifier(ESTATE)));
    let estates = g.piles.iter().find(|e| e.0 .0 == ESTATE).unwrap().1;
    assert_eq!(estates, 7);
}

#[test]
fn test_play_treasures() {
    let names = vec!["Player 1".to_string(), "Player 2".to_string()];
    let mut g = fresh_game(&names);
    let mut ctx = EvalContext { debug: false, rng: randomly_seeded_weak_rng() };
    g.players[0].hand = vec![
        CardIdentifier(COPPER),
        CardIdentifier(SILVER),
        CardIdentifier(COPPER),
    ];
    let played = vec![CardIdentifier(COPPER), CardIdentifier(SILVER)];
    g.play_treasures(PlayerIdentifier(0), &played, &mut ctx);
    assert_eq!(g.coins, 3);
    assert_eq!(g.players[0].hand, vec![CardIdentifier(COPPER)]);
    assert_eq!(g.play_area, played);
}

#[test]
fn test_shuffle_preserves_cards() {
    let mut cards = vec![
        CardIdentifier(COPPER),
        CardIdentifier(SILVER),
        CardIdentifier(ESTATE),
        CardIdentifier(COPPER),
    ];
    let mut rng = tactician::rng::WeakRng::from_seed(11, 22, 33, 44);
    tactician::util::shuffle_cards(&mut cards, &mut rng);
    assert_eq!(cards.len(), 4);
    assert_eq!(cards.iter().filter(|c| c.0 == COPPER).count(), 2);
    assert_eq!(cards.iter().filter(|c| c.0 == SILVER).count(), 1);
    assert_eq!(cards.iter().filter(|c| c.0 == ESTATE).count(), 1);
}

#[test]
fn test_player_discards_to() {
    let names = vec!["Player 1".to_string(), "Player 2".to_string()];
    let mut g = fresh_game(&names);
    let mut ctx = EvalContext { debug: false, rng: randomly_seeded_weak_rng() };
    g.players[1].hand = vec![CardIdentifier(COPPER); 5];
    g.player_discards_to(PlayerIdentifier(1), 3, &mut ctx);
    let d = g.pending_decision.as_ref().unwrap();
    assert_eq!(d.player, PlayerIdentifier(1));
    assert_eq!(d.decision_type, DecisionType::DiscardCards(None));
    assert_eq!(d.range, (2, 2));
    assert_eq!(d.choices.len(), 5);
}

#[test]
fn test_trash_cards_with_followup() {
    let names = vec!["Player 1".to_string(), "Player 2".to_string()];
    let mut g = fresh_game(&names);
    let mut ctx = EvalContext { debug: false, rng: randomly_seeded_weak_rng() };
    g.players[0].hand = vec![CardIdentifier(COPPER)];
    g.trash_cards(
        PlayerIdentifier(0),
        vec![CardIdentifier(COPPER)],
        Some(TrashFollowup::ReplaceByCost(
            Some(CardType::Treasure),
            3,
            GainDestination::GainToHand,
        )),
        &mut ctx,
    );
    assert!(g.players[0].hand.is_empty());
    assert_eq!(g.trash_pile, vec![CardIdentifier(COPPER)]);
    let d = g.pending_decision.as_ref().unwrap();
    assert_eq!(
        d.decision_type,
        DecisionType::GainCard(GainDestination::GainToHand)
    );
    // Treasures costing up to three: Copper and Silver.
    assert_eq!(d.choices, vec![CardIdentifier(SILVER), CardIdentifier(COPPER)]);
}

#[test]
fn test_reveal_reaction_withdraws_attack() {
    let names = vec!["Player 1".to_string(), "Player 2".to_string()];
    let mut g = fresh_game(&names);
    let mut ctx = EvalContext { debug: false, rng: randomly_seeded_weak_rng() };
    let aid = ActionIdentifier(1);
    g.pending_effects = vec![
        QueuedEffect::ActionEffect(PlayerIdentifier(1), aid, CardAction::OpponentsDiscardTo(3)),
        QueuedEffect::ActionEffect(PlayerIdentifier(0), aid, CardAction::PlusCoins(2)),
    ];
    g.player_reveals_reaction(PlayerIdentifier(1), &CardIdentifier(MOAT), aid, &mut ctx);
    assert_eq!(
        g.pending_effects,
        vec![QueuedEffect::ActionEffect(
            PlayerIdentifier(0),
            aid,
            CardAction::PlusCoins(2)
        )]
    );
}

#[test]
fn test_queue_card_effects_targets_opponents() {
    let names = vec!["Player 1".to_string(), "Player 2".to_string()];
    let mut g = fresh_game(&names);
    let aid = ActionIdentifier(1);
    g.queue_card_effects(PlayerIdentifier(0), aid, &CardAction::OpponentsDiscardTo(3));
    assert_eq!(
        g.pending_effects,
        vec![QueuedEffect::ActionEffect(
            PlayerIdentifier(1),
            aid,
            CardAction::OpponentsDiscardTo(3)
        )]
    );
}

fn advance_until_decision(game: &mut tactician::game::Game, ctx: &mut EvalContext) {
    while game.pending_decision.is_none() {
        game.advance_game(ctx);
    }
}

fn assert_decision(
    game: &mut tactician::game::Game,
    player_index: u8,
    decision_type: DecisionType,
) {
    if let Some(ref d) = game.pending_decision {
        assert_eq!(d.player, PlayerIdentifier(player_index));
        assert_eq!(d.decision_type, decision_type);
    } else {
        assert!(
            false,
            "No pending decision, expected for player {}, type {:?}",
            player_index, decision_type
        );
    }
}

#[test]
fn test_militia_attack() {
    let names = vec!["Player 1".into(), "Player 2".into()];
    let mut ctx = EvalContext { debug: true, rng: randomly_seeded_weak_rng() };
    let mut game = fresh_game(&names);

    game.players[0].hand.push(CardIdentifier(MILITIA));
    game.players[1].hand = vec![
        CardIdentifier(COPPER),
        CardIdentifier(COPPER),
        CardIdentifier(COPPER),
        CardIdentifier(COPPER),
        CardIdentifier(COPPER),
    ];

    advance_until_decision(&mut game, &mut ctx);
    game.resolve_decision(vec![CardIdentifier(MILITIA)], &mut ctx);
    advance_until_decision(&mut game, &mut ctx);
    assert_decision(&mut game, 1, DecisionType::DiscardCards(None));

    game.resolve_decision(
        vec![CardIdentifier(COPPER), CardIdentifier(COPPER)],
        &mut ctx,
    );
    advance_until_decision(&mut game, &mut ctx);

    assert_decision(&mut game, 0, DecisionType::BuyCard);
    assert_eq!(game.players[1].hand.len(), 3);
}

#[test]
fn test_moat_reveal() {
    let names = vec!["Player 1".into(), "Player 2".into()];
    let mut ctx = EvalContext { debug: true, rng: randomly_seeded_weak_rng() };
    let mut game = fresh_game(&names);

    game.players[0].hand.push(CardIdentifier(MILITIA));
    game.players[1].hand = vec![
        CardIdentifier(MOAT),
        CardIdentifier(COPPER),
        CardIdentifier(COPPER),
        CardIdentifier(COPPER),
        CardIdentifier(COPPER),
    ];

    advance_until_decision(&mut game, &mut ctx);
    assert_decision(&mut game, 0, DecisionType::PlayAction);

    game.resolve_decision(vec![CardIdentifier(MILITIA)], &mut ctx);
    advance_until_decision(&mut game, &mut ctx);
    let aid = game.current_action_identifier;
    assert_decision(&mut game, 1, DecisionType::RevealReaction(aid));

    game.resolve_decision(vec![CardIdentifier(MOAT)], &mut ctx);
    advance_until_decision(&mut game, &mut ctx);
    assert_decision(&mut game, 0, DecisionType::BuyCard);
    assert_eq!(game.players[1].hand.len(), 5);
}

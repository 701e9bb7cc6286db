use tactician::cards::{
    card_names, filter_by_type, is_of_type, lookup_card, score_cards, standard_piles,
    target_for_action, CardAction, CardIdentifier, CardType, EffectTarget, COPPER, CURSE,
    ESTATE, GOLD, MILITIA, MOAT, NUM_CARDS, PROVINCE, SILVER, SMITHY, VILLAGE,
};

#[test]
fn test_card_identifiers() {
    for i in 1..=NUM_CARDS {
        let c1 = CardIdentifier(i);
        let c2 = lookup_card(&c1).identifier;
        assert_eq!(c1, c2);
    }
}

#[test]
fn test_card_fields() {
    let copper = lookup_card(&CardIdentifier(COPPER));
    assert_eq!(copper.name, "Copper");
    assert_eq!(copper.cost, 0);
    assert_eq!(copper.coin_value, Some(1));
    assert!(copper.is_treasure());
    assert!(!copper.is_action());
    assert!(!copper.is_victory());

    let province = lookup_card(&CardIdentifier(PROVINCE));
    assert_eq!(province.cost, 8);
    assert_eq!(province.vp_value, Some(6));
    assert!(province.is_victory());
    assert!(province.is_vp());

    let curse = lookup_card(&CardIdentifier(CURSE));
    assert_eq!(curse.vp_value, Some(-1));
    assert!(curse.is_curse());
    assert!(!curse.is_vp());

    let militia = lookup_card(&CardIdentifier(MILITIA));
    assert!(militia.is_attack);
    assert!(militia.is_action());

    let moat = lookup_card(&CardIdentifier(MOAT));
    assert!(moat.is_reaction());
    assert!(moat.is_action());
}

#[test]
fn test_is_of_type() {
    assert!(is_of_type(&CardIdentifier(GOLD), &CardType::Treasure));
    assert!(!is_of_type(&CardIdentifier(GOLD), &CardType::Action));
    assert!(is_of_type(&CardIdentifier(SMITHY), &CardType::Action));
    assert!(is_of_type(&CardIdentifier(MOAT), &CardType::Reaction));
    assert!(is_of_type(&CardIdentifier(CURSE), &CardType::Curse));
    assert!(is_of_type(&CardIdentifier(ESTATE), &CardType::Victory));
}

#[test]
fn test_filter_by_type() {
    let cards = vec![
        CardIdentifier(COPPER),
        CardIdentifier(SMITHY),
        CardIdentifier(SILVER),
        CardIdentifier(ESTATE),
    ];
    let treasures = filter_by_type(&cards, &CardType::Treasure);
    assert_eq!(treasures, vec![CardIdentifier(COPPER), CardIdentifier(SILVER)]);
    let victories = filter_by_type(&cards, &CardType::Victory);
    assert_eq!(victories, vec![CardIdentifier(ESTATE)]);
}

#[test]
fn test_score_cards() {
    // Estate 1 + Province 6 + Curse -1, treasures score nothing.
    let cards = vec![
        CardIdentifier(ESTATE),
        CardIdentifier(PROVINCE),
        CardIdentifier(CURSE),
        CardIdentifier(GOLD),
    ];
    assert_eq!(score_cards(&cards), 6);
    assert_eq!(score_cards(&Vec::new()), 0);
}

#[test]
fn test_card_names() {
    let cards = vec![CardIdentifier(COPPER), CardIdentifier(MOAT)];
    assert_eq!(card_names(&cards), "Copper, Moat");
    assert_eq!(card_names(&Vec::new()), "");
}

#[test]
fn test_standard_piles() {
    let piles = standard_piles(2);
    assert_eq!(piles.len(), 17);
    let find = |id: u16| piles.iter().find(|e| e.0 .0 == id).unwrap().1;
    assert_eq!(find(PROVINCE), 8);
    assert_eq!(find(GOLD), 30);
    assert_eq!(find(SILVER), 40);
    assert_eq!(find(COPPER), 46);
    assert_eq!(find(CURSE), 10);
    assert_eq!(find(VILLAGE), 10);

    let piles3 = standard_piles(3);
    let find3 = |id: u16| piles3.iter().find(|e| e.0 .0 == id).unwrap().1;
    assert_eq!(find3(PROVINCE), 12);
    assert_eq!(find3(CURSE), 20);
}

#[test]
fn test_target_for_action() {
    assert_eq!(
        target_for_action(&CardAction::OpponentsDiscardTo(3)),
        EffectTarget::Opponents
    );
    assert_eq!(target_for_action(&CardAction::DrawCards(2)), EffectTarget::ActivePlayer);
}

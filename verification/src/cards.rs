//! The card catalog of the deck-building game: card identities, their
//! costs and values, and the standard supply piles.
//!
//! The catalog is a fixed table of seventeen cards addressed by
//! [`CardIdentifier`]; `lookup_card` rebuilds a card's data from its
//! identifier, and the `spec_*` functions give each field's value so that
//! callers can reason about costs, coin values and victory points without
//! unfolding the table.

use vstd::prelude::*;

verus! {

#[derive(Clone, Copy, Debug, Eq, PartialEq, Structural)]
pub enum CardType {
    Treasure,
    Action,
    Victory,
    Reaction,
    Curse,
}

#[derive(Clone, Copy, Debug, Eq, PartialEq, Ord, PartialOrd, Hash, Structural)]
pub struct CardIdentifier(pub u16);

#[derive(Clone, Copy, Debug, Eq, PartialEq, Structural)]
pub enum GainDestination {
    GainToHand,
    GainToDiscard,
}

#[derive(Clone, Copy, Debug, Eq, PartialEq, Structural)]
pub enum DiscardEffect {
    DrawPerDiscard,
}

#[derive(Clone, Copy, Debug, Eq, PartialEq, Structural)]
pub enum TrashFollowup {
    ReplaceByCost(Option<CardType>, i32, GainDestination),
}

#[derive(Clone, Copy, Debug, Eq, PartialEq, Structural)]
pub enum CardAction {
    DiscardForEffect(DiscardEffect),
    DrawCards(i32),
    GainCardCostingUpto(i32),
    OpponentsDiscardTo(i32),
    PlusActions(i32),
    PlusBuys(i32),
    PlusCoins(i32),
    TrashCards(Option<CardType>, Option<TrashFollowup>),
}

#[derive(Clone, Copy, Debug, Eq, PartialEq, Structural)]
pub enum CardReaction {
    AttackImmunity,
}

#[derive(Clone, Copy, Debug, Eq, PartialEq, Structural)]
pub enum EffectTarget {
    ActivePlayer,
    Opponents,
    AllPlayers,
}

/// Which players a card action applies to: opponents for an attack's
/// discard demand, the active player for everything else.
pub open spec fn spec_action_target(action: CardAction) -> EffectTarget {
    match action {
        CardAction::OpponentsDiscardTo(_) => EffectTarget::Opponents,
        _ => EffectTarget::ActivePlayer,
    }
}

pub fn target_for_action(action: &CardAction) -> (r: EffectTarget)
    ensures
        r == spec_action_target(*action),
{
    match action {
        CardAction::OpponentsDiscardTo(_) => EffectTarget::Opponents,
        _ => EffectTarget::ActivePlayer,
    }
}

#[derive(Debug)]
pub struct Card {
    pub identifier: CardIdentifier,
    pub name: &'static str,
    pub cost: i32,
    pub coin_value: Option<i32>,
    pub vp_value: Option<i32>,
    pub action_effects: Vec<CardAction>,
    pub reaction_effect: Option<CardReaction>,
    pub is_attack: bool,
}

pub const COPPER: u16 = 1;

pub const SILVER: u16 = 2;

pub const GOLD: u16 = 3;

pub const ESTATE: u16 = 4;

pub const DUCHY: u16 = 5;

pub const PROVINCE: u16 = 6;

pub const CURSE: u16 = 7;

pub const VILLAGE: u16 = 8;

pub const SMITHY: u16 = 9;

pub const MARKET: u16 = 10;

pub const WOODCUTTER: u16 = 11;

pub const MILITIA: u16 = 12;

pub const WORKSHOP: u16 = 13;

pub const MINE: u16 = 14;

pub const REMODEL: u16 = 15;

pub const CELLAR: u16 = 16;

pub const MOAT: u16 = 17;

/// The number of distinct cards; identifiers run from `1` through this.
pub const NUM_CARDS: u16 = 17;

pub open spec fn spec_valid_card(id: u16) -> bool {
    1 <= id <= NUM_CARDS
}

pub open spec fn spec_cost(id: u16) -> int {
    if id == COPPER {
        0
    } else if id == SILVER {
        3
    } else if id == GOLD {
        6
    } else if id == ESTATE {
        2
    } else if id == DUCHY {
        5
    } else if id == PROVINCE {
        8
    } else if id == CURSE {
        0
    } else if id == VILLAGE {
        3
    } else if id == SMITHY {
        4
    } else if id == MARKET {
        5
    } else if id == WOODCUTTER {
        3
    } else if id == MILITIA {
        4
    } else if id == WORKSHOP {
        3
    } else if id == MINE {
        5
    } else if id == REMODEL {
        5
    } else if id == CELLAR {
        2
    } else {
        2  // MOAT
    }
}

pub open spec fn spec_coin_value(id: u16) -> Option<i32> {
    if id == COPPER {
        Some(1i32)
    } else if id == SILVER {
        Some(2i32)
    } else if id == GOLD {
        Some(3i32)
    } else {
        None
    }
}

pub open spec fn spec_vp_value(id: u16) -> Option<i32> {
    if id == ESTATE {
        Some(1i32)
    } else if id == DUCHY {
        Some(3i32)
    } else if id == PROVINCE {
        Some(6i32)
    } else if id == CURSE {
        Some(-1i32)
    } else {
        None
    }
}

/// Whether the card carries action effects.
pub open spec fn spec_is_action(id: u16) -> bool {
    id == VILLAGE || id == SMITHY || id == MARKET || id == WOODCUTTER || id == MILITIA || id
        == WORKSHOP || id == MINE || id == REMODEL || id == CELLAR || id == MOAT
}

pub open spec fn spec_is_reaction(id: u16) -> bool {
    id == MOAT
}

pub open spec fn spec_is_attack(id: u16) -> bool {
    id == MILITIA
}

impl Card {
    pub fn is_action(&self) -> (r: bool)
        ensures
            r == (self.action_effects@.len() > 0),
    {
        self.action_effects.len() > 0
    }

    pub fn is_treasure(&self) -> (r: bool)
        ensures
            r == (self.coin_value is Some),
    {
        self.coin_value.is_some()
    }

    pub fn is_victory(&self) -> (r: bool)
        ensures
            r == (self.vp_value is Some),
    {
        self.vp_value.is_some()
    }

    pub fn is_reaction(&self) -> (r: bool)
        ensures
            r == (self.reaction_effect is Some),
    {
        self.reaction_effect.is_some()
    }

    /// Whether the card is worth non-negative victory points (a victory
    /// card proper, as opposed to a curse).
    pub fn is_vp(&self) -> (r: bool)
        ensures
            r == (match self.vp_value {
                Some(i) => i >= 0,
                None => false,
            }),
    {
        match self.vp_value {
            Some(i) => i >= 0,
            None => false,
        }
    }

    pub fn is_curse(&self) -> (r: bool)
        ensures
            r == (self.identifier.0 == CURSE),
    {
        self.identifier == CardIdentifier(CURSE)
    }
}

fn make_treasure_card(id: u16, name: &'static str, cost: i32, coin_value: i32) -> (r: Card)
    ensures
        r == (Card {
            identifier: CardIdentifier(id),
            name,
            cost,
            coin_value: Some(coin_value),
            vp_value: None,
            action_effects: r.action_effects,
            reaction_effect: None,
            is_attack: false,
        }),
        r.action_effects@.len() == 0,
{
    Card {
        identifier: CardIdentifier(id),
        name,
        cost,
        coin_value: Some(coin_value),
        vp_value: None,
        action_effects: Vec::new(),
        reaction_effect: None,
        is_attack: false,
    }
}

fn make_vp_card(id: u16, name: &'static str, cost: i32, vp_value: i32) -> (r: Card)
    ensures
        r == (Card {
            identifier: CardIdentifier(id),
            name,
            cost,
            coin_value: None,
            vp_value: Some(vp_value),
            action_effects: r.action_effects,
            reaction_effect: None,
            is_attack: false,
        }),
        r.action_effects@.len() == 0,
{
    Card {
        identifier: CardIdentifier(id),
        name,
        cost,
        coin_value: None,
        vp_value: Some(vp_value),
        action_effects: Vec::new(),
        reaction_effect: None,
        is_attack: false,
    }
}

fn make_curse() -> (r: Card)
    ensures
        r.identifier.0 == CURSE,
        r.name@ == "Curse"@,
        r.cost == 0,
        r.coin_value is None,
        r.vp_value == Some(-1i32),
        r.action_effects@.len() == 0,
        r.reaction_effect is None,
        !r.is_attack,
{
    make_vp_card(CURSE, "Curse", 0, -1)
}

fn make_action_card(id: u16, name: &'static str, cost: i32, action_effects: Vec<CardAction>) -> (r:
    Card)
    requires
        action_effects@.len() > 0,
    ensures
        r.identifier.0 == id,
        r.name == name,
        r.cost == cost,
        r.coin_value is None,
        r.vp_value is None,
        r.action_effects == action_effects,
        r.reaction_effect is None,
        !r.is_attack,
{
    Card {
        identifier: CardIdentifier(id),
        name,
        cost,
        coin_value: None,
        vp_value: None,
        action_effects,
        reaction_effect: None,
        is_attack: false,
    }
}

fn make_attack_card(id: u16, name: &'static str, cost: i32, action_effects: Vec<CardAction>) -> (r:
    Card)
    requires
        action_effects@.len() > 0,
    ensures
        r.identifier.0 == id,
        r.name == name,
        r.cost == cost,
        r.coin_value is None,
        r.vp_value is None,
        r.action_effects == action_effects,
        r.reaction_effect is None,
        r.is_attack,
{
    Card {
        identifier: CardIdentifier(id),
        name,
        cost,
        coin_value: None,
        vp_value: None,
        action_effects,
        reaction_effect: None,
        is_attack: true,
    }
}

fn make_reaction_card(
    id: u16,
    name: &'static str,
    cost: i32,
    action_effects: Vec<CardAction>,
    reaction: CardReaction,
) -> (r: Card)
    requires
        action_effects@.len() > 0,
    ensures
        r.identifier.0 == id,
        r.name == name,
        r.cost == cost,
        r.coin_value is None,
        r.vp_value is None,
        r.action_effects == action_effects,
        r.reaction_effect == Some(reaction),
        !r.is_attack,
{
    Card {
        identifier: CardIdentifier(id),
        name,
        cost,
        coin_value: None,
        vp_value: None,
        action_effects,
        reaction_effect: Some(reaction),
        is_attack: false,
    }
}

/// The followup of a trash-for-gain action: trash a card (of the given type
/// if one is named) and replace it by one costing up to `plus_cost` more.
fn trash_and_replace_action(card_type: Option<CardType>, plus_cost: i32, dest: GainDestination) -> (
    r: CardAction)
    ensures
        r == CardAction::TrashCards(
            card_type,
            Some(TrashFollowup::ReplaceByCost(card_type, plus_cost, dest)),
        ),
{
    CardAction::TrashCards(card_type, Some(TrashFollowup::ReplaceByCost(card_type, plus_cost, dest)))
}

/// The action effects of the identified card, in the order the card lists
/// them.
pub open spec fn spec_card_effects(id: u16) -> Seq<CardAction> {
    if id == VILLAGE {
        seq![CardAction::DrawCards(1i32), CardAction::PlusActions(2i32)]
    } else if id == SMITHY {
        seq![CardAction::DrawCards(3i32)]
    } else if id == MARKET {
        seq![
            CardAction::DrawCards(1i32),
            CardAction::PlusActions(1i32),
            CardAction::PlusBuys(1i32),
            CardAction::PlusCoins(1i32),
        ]
    } else if id == WOODCUTTER {
        seq![CardAction::PlusBuys(1i32), CardAction::PlusCoins(2i32)]
    } else if id == MILITIA {
        seq![CardAction::PlusCoins(2i32), CardAction::OpponentsDiscardTo(3i32)]
    } else if id == WORKSHOP {
        seq![CardAction::GainCardCostingUpto(4i32)]
    } else if id == MINE {
        seq![
            CardAction::TrashCards(
                Some(CardType::Treasure),
                Some(
                    TrashFollowup::ReplaceByCost(
                        Some(CardType::Treasure),
                        3i32,
                        GainDestination::GainToHand,
                    ),
                ),
            ),
        ]
    } else if id == REMODEL {
        seq![
            CardAction::TrashCards(
                None,
                Some(TrashFollowup::ReplaceByCost(None, 2i32, GainDestination::GainToDiscard)),
            ),
        ]
    } else if id == CELLAR {
        seq![CardAction::DiscardForEffect(DiscardEffect::DrawPerDiscard)]
    } else if id == MOAT {
        seq![CardAction::DrawCards(2i32)]
    } else {
        Seq::empty()
    }
}

/// The printed name of the identified card.
pub open spec fn spec_name(id: u16) -> Seq<char> {
    if id == COPPER {
        "Copper"@
    } else if id == SILVER {
        "Silver"@
    } else if id == GOLD {
        "Gold"@
    } else if id == ESTATE {
        "Estate"@
    } else if id == DUCHY {
        "Duchy"@
    } else if id == PROVINCE {
        "Province"@
    } else if id == CURSE {
        "Curse"@
    } else if id == VILLAGE {
        "Village"@
    } else if id == SMITHY {
        "Smithy"@
    } else if id == MARKET {
        "Market"@
    } else if id == WOODCUTTER {
        "Woodcutter"@
    } else if id == MILITIA {
        "Militia"@
    } else if id == WORKSHOP {
        "Workshop"@
    } else if id == MINE {
        "Mine"@
    } else if id == REMODEL {
        "Remodel"@
    } else if id == CELLAR {
        "Cellar"@
    } else {
        "Moat"@
    }
}

/// The card bearing the given identifier, rebuilt from the fixed catalog.
pub fn lookup_card(ci: &CardIdentifier) -> (r: Card)
    requires
        spec_valid_card(ci.0),
    ensures
        r.identifier == *ci,
        r.name@ == spec_name(ci.0),
        r.cost == spec_cost(ci.0),
        r.coin_value == spec_coin_value(ci.0),
        r.vp_value == spec_vp_value(ci.0),
        r.action_effects@ == spec_card_effects(ci.0),
        (r.action_effects@.len() > 0) == spec_is_action(ci.0),
        r.action_effects@.len() <= 4,
        (r.reaction_effect is Some) == spec_is_reaction(ci.0),
        r.is_attack == spec_is_attack(ci.0),
{
    let id = ci.0;
    let r = if id == COPPER {
        make_treasure_card(COPPER, "Copper", 0, 1)
    } else if id == SILVER {
        make_treasure_card(SILVER, "Silver", 3, 2)
    } else if id == GOLD {
        make_treasure_card(GOLD, "Gold", 6, 3)
    } else if id == ESTATE {
        make_vp_card(ESTATE, "Estate", 2, 1)
    } else if id == DUCHY {
        make_vp_card(DUCHY, "Duchy", 5, 3)
    } else if id == PROVINCE {
        make_vp_card(PROVINCE, "Province", 8, 6)
    } else if id == CURSE {
        make_curse()
    } else if id == VILLAGE {
        let mut effects: Vec<CardAction> = Vec::new();
        effects.push(CardAction::DrawCards(1));
        effects.push(CardAction::PlusActions(2));
        make_action_card(VILLAGE, "Village", 3, effects)
    } else if id == SMITHY {
        let mut effects: Vec<CardAction> = Vec::new();
        effects.push(CardAction::DrawCards(3));
        make_action_card(SMITHY, "Smithy", 4, effects)
    } else if id == MARKET {
        let mut effects: Vec<CardAction> = Vec::new();
        effects.push(CardAction::DrawCards(1));
        effects.push(CardAction::PlusActions(1));
        effects.push(CardAction::PlusBuys(1));
        effects.push(CardAction::PlusCoins(1));
        make_action_card(MARKET, "Market", 5, effects)
    } else if id == WOODCUTTER {
        let mut effects: Vec<CardAction> = Vec::new();
        effects.push(CardAction::PlusBuys(1));
        effects.push(CardAction::PlusCoins(2));
        make_action_card(WOODCUTTER, "Woodcutter", 3, effects)
    } else if id == MILITIA {
        let mut effects: Vec<CardAction> = Vec::new();
        effects.push(CardAction::PlusCoins(2));
        effects.push(CardAction::OpponentsDiscardTo(3));
        make_attack_card(MILITIA, "Militia", 4, effects)
    } else if id == WORKSHOP {
        let mut effects: Vec<CardAction> = Vec::new();
        effects.push(CardAction::GainCardCostingUpto(4));
        make_action_card(WORKSHOP, "Workshop", 3, effects)
    } else if id == MINE {
        let mut effects: Vec<CardAction> = Vec::new();
        effects.push(
            trash_and_replace_action(Some(CardType::Treasure), 3, GainDestination::GainToHand),
        );
        make_action_card(MINE, "Mine", 5, effects)
    } else if id == REMODEL {
        let mut effects: Vec<CardAction> = Vec::new();
        effects.push(trash_and_replace_action(None, 2, GainDestination::GainToDiscard));
        make_action_card(REMODEL, "Remodel", 5, effects)
    } else if id == CELLAR {
        let mut effects: Vec<CardAction> = Vec::new();
        effects.push(CardAction::DiscardForEffect(DiscardEffect::DrawPerDiscard));
        make_action_card(CELLAR, "Cellar", 2, effects)
    } else {
        let mut effects: Vec<CardAction> = Vec::new();
        effects.push(CardAction::DrawCards(2));
        make_reaction_card(MOAT, "Moat", 2, effects, CardReaction::AttackImmunity)
    };
    proof {
        assert(r.action_effects@ =~= spec_card_effects(ci.0));
    }
    r
}

/// Whether the identified card has the given type.
pub open spec fn spec_is_of_type(id: u16, card_type: CardType) -> bool {
    match card_type {
        CardType::Treasure => spec_coin_value(id) is Some,
        CardType::Action => spec_is_action(id),
        CardType::Victory => spec_vp_value(id) is Some,
        CardType::Reaction => spec_is_reaction(id),
        CardType::Curse => id == CURSE,
    }
}

pub fn is_of_type(c: &CardIdentifier, card_type: &CardType) -> (r: bool)
    requires
        spec_valid_card(c.0),
    ensures
        r == spec_is_of_type(c.0, *card_type),
{
    let card = lookup_card(c);
    match card_type {
        CardType::Treasure => card.is_treasure(),
        CardType::Action => card.is_action(),
        CardType::Victory => card.is_victory(),
        CardType::Reaction => card.is_reaction(),
        CardType::Curse => card.is_curse(),
    }
}

pub open spec fn spec_all_valid(cards: Seq<CardIdentifier>) -> bool {
    forall|k: int| 0 <= k < cards.len() ==> spec_valid_card(#[trigger] cards[k].0)
}

/// The subsequence of `cards` that has the given type.
pub open spec fn spec_filter_by_type(cards: Seq<CardIdentifier>, t: CardType) -> Seq<
    CardIdentifier,
>
    decreases cards.len(),
{
    if cards.len() == 0 {
        Seq::empty()
    } else {
        let rest = spec_filter_by_type(cards.drop_last(), t);
        if spec_is_of_type(cards.last().0, t) {
            rest.push(cards.last())
        } else {
            rest
        }
    }
}

/// The identified cards that have the given type, keeping their order.
pub fn filter_by_type(cards: &Vec<CardIdentifier>, card_type: &CardType) -> (r: Vec<
    CardIdentifier,
>)
    requires
        spec_all_valid(cards@),
    ensures
        r@ == spec_filter_by_type(cards@, *card_type),
{
    let mut r: Vec<CardIdentifier> = Vec::new();
    let mut i: usize = 0;
    proof {
        assert(cards@.take(0) =~= Seq::<CardIdentifier>::empty());
    }
    while i < cards.len()
        invariant
            i <= cards@.len(),
            spec_all_valid(cards@),
            r@ == spec_filter_by_type(cards@.take(i as int), *card_type),
        decreases cards@.len() - i,
    {
        proof {
            assert(cards@.take(i + 1).drop_last() =~= cards@.take(i as int));
            assert(cards@.take(i + 1).last() == cards@[i as int]);
        }
        let c = cards[i];
        if is_of_type(&c, card_type) {
            r.push(c);
        }
        i = i + 1;
    }
    proof {
        assert(cards@.take(cards@.len() as int) =~= cards@);
    }
    r
}

/// The total victory-point value of a list of cards.
pub open spec fn spec_score(cards: Seq<CardIdentifier>) -> int
    decreases cards.len(),
{
    if cards.len() == 0 {
        0
    } else {
        spec_score(cards.drop_last()) + (match spec_vp_value(cards.last().0) {
            Some(v) => v as int,
            None => 0,
        })
    }
}

pub proof fn lemma_score_bounds(cards: Seq<CardIdentifier>)
    ensures
        -1 * cards.len() <= spec_score(cards) <= 6 * cards.len(),
    decreases cards.len(),
{
    if cards.len() > 0 {
        lemma_score_bounds(cards.drop_last());
    }
}

/// The total victory points of a list of cards; a card without victory
/// value counts zero.
pub fn score_cards(identifiers: &Vec<CardIdentifier>) -> (r: i32)
    requires
        spec_all_valid(identifiers@),
        identifiers@.len() <= 100_000_000,
    ensures
        r == spec_score(identifiers@),
{
    let mut sum: i32 = 0;
    let mut i: usize = 0;
    proof {
        assert(identifiers@.take(0) =~= Seq::<CardIdentifier>::empty());
    }
    while i < identifiers.len()
        invariant
            i <= identifiers@.len(),
            identifiers@.len() <= 100_000_000,
            spec_all_valid(identifiers@),
            sum == spec_score(identifiers@.take(i as int)),
            -1 * i <= sum <= 6 * i,
        decreases identifiers@.len() - i,
    {
        proof {
            assert(identifiers@.take(i + 1).drop_last() =~= identifiers@.take(i as int));
            assert(identifiers@.take(i + 1).last() == identifiers@[i as int]);
            lemma_score_bounds(identifiers@.take(i as int));
        }
        let card = lookup_card(&identifiers[i]);
        let v = match card.vp_value {
            Some(v) => v,
            None => 0,
        };
        sum = sum + v;
        i = i + 1;
    }
    proof {
        assert(identifiers@.take(identifiers@.len() as int) =~= identifiers@);
    }
    sum
}

/// The names of the identified cards, joined by a comma and a space.
pub open spec fn spec_card_names(ids: Seq<CardIdentifier>) -> Seq<char>
    decreases ids.len(),
{
    if ids.len() == 0 {
        Seq::empty()
    } else if ids.len() == 1 {
        spec_name(ids[0].0)
    } else {
        spec_card_names(ids.drop_last()) + ", "@ + spec_name(ids.last().0)
    }
}

/// Relies on `String::push_str`: appends the slice to the string.
#[verifier::external_body]
fn push_str(s: &mut String, t: &str)
    ensures
        final(s)@ == old(s)@ + t@,
{
    s.push_str(t)
}

/// The names of the identified cards as one comma-separated string.
pub fn card_names(identifiers: &Vec<CardIdentifier>) -> (r: String)
    requires
        spec_all_valid(identifiers@),
    ensures
        r@ == spec_card_names(identifiers@),
{
    let mut s = String::new();
    let mut i: usize = 0;
    proof {
        assert(identifiers@.take(0) =~= Seq::<CardIdentifier>::empty());
    }
    while i < identifiers.len()
        invariant
            i <= identifiers@.len(),
            spec_all_valid(identifiers@),
            s@ == spec_card_names(identifiers@.take(i as int)),
        decreases identifiers@.len() - i,
    {
        proof {
            assert(identifiers@.take(i + 1).drop_last() =~= identifiers@.take(i as int));
            assert(identifiers@.take(i + 1).last() == identifiers@[i as int]);
            assert(identifiers@.take(i + 1)[0] == identifiers@[0]);
        }
        if i > 0 {
            push_str(&mut s, ", ");
        }
        let card = lookup_card(&identifiers[i]);
        push_str(&mut s, card.name);
        proof {
            if i == 0 {
                assert(s@ =~= spec_name(identifiers@[0].0));
            }
        }
        i = i + 1;
    }
    proof {
        assert(identifiers@.take(identifiers@.len() as int) =~= identifiers@);
    }
    s
}

/// The standard supply for a game of `num_players`: the victory, treasure
/// and curse piles plus ten of each kingdom card, as an association list in
/// catalog order.
/// The standard supply: seventeen piles in catalog order, with the victory
/// counts set for the player count, the fixed treasure counts, ten curses
/// per opponent, and ten of each kingdom card.
pub open spec fn spec_is_standard_piles(piles: Seq<(CardIdentifier, i32)>, num_players: int) -> bool {
    &&& piles.len() == 17
    &&& (forall|k: int|
        0 <= k < 17 ==> #[trigger] piles[k].0.0 == spec_standard_pile_order()[k]
            && spec_valid_card(piles[k].0.0))
    &&& piles[0].1 == (if num_players == 2 {
        8int
    } else {
        12int
    })
    &&& piles[1].1 == piles[0].1
    &&& piles[2].1 == piles[0].1
    &&& piles[3].1 == 30
    &&& piles[4].1 == 40
    &&& piles[5].1 == 46
    &&& piles[6].1 == (num_players - 1) * 10
    &&& (forall|k: int| 7 <= k < 17 ==> #[trigger] piles[k].1 == 10)
}

pub fn standard_piles(num_players: i32) -> (r: Vec<(CardIdentifier, i32)>)
    requires
        1 <= num_players <= 255,
    ensures
        spec_is_standard_piles(r@, num_players as int),
{
    let vp_count: i32 = if num_players == 2 {
        VP_PILE_COUNT_2P
    } else {
        VP_PILE_COUNT_MP
    };
    let curses = (num_players - 1) * 10;
    let mut cards: Vec<(CardIdentifier, i32)> = Vec::new();
    cards.push((CardIdentifier(PROVINCE), vp_count));
    cards.push((CardIdentifier(DUCHY), vp_count));
    cards.push((CardIdentifier(ESTATE), vp_count));
    cards.push((CardIdentifier(GOLD), 30));
    cards.push((CardIdentifier(SILVER), 40));
    cards.push((CardIdentifier(COPPER), 46));
    cards.push((CardIdentifier(CURSE), curses));
    cards.push((CardIdentifier(VILLAGE), KINGDOM_PILE_COUNT));
    cards.push((CardIdentifier(SMITHY), KINGDOM_PILE_COUNT));
    cards.push((CardIdentifier(MARKET), KINGDOM_PILE_COUNT));
    cards.push((CardIdentifier(WOODCUTTER), KINGDOM_PILE_COUNT));
    cards.push((CardIdentifier(MILITIA), KINGDOM_PILE_COUNT));
    cards.push((CardIdentifier(WORKSHOP), KINGDOM_PILE_COUNT));
    cards.push((CardIdentifier(MINE), KINGDOM_PILE_COUNT));
    cards.push((CardIdentifier(REMODEL), KINGDOM_PILE_COUNT));
    cards.push((CardIdentifier(CELLAR), KINGDOM_PILE_COUNT));
    cards.push((CardIdentifier(MOAT), KINGDOM_PILE_COUNT));
    proof {
        assert forall|k: int| 0 <= k < 17 implies #[trigger] cards@[k].0.0
            == spec_standard_pile_order()[k] && spec_valid_card(cards@[k].0.0) by {
            assert(spec_standard_pile_order()[k] == cards@[k].0.0);
        }
    }
    cards
}

/// The identifier order of the standard supply list.
pub open spec fn spec_standard_pile_order() -> Seq<u16> {
    seq![
        PROVINCE,
        DUCHY,
        ESTATE,
        GOLD,
        SILVER,
        COPPER,
        CURSE,
        VILLAGE,
        SMITHY,
        MARKET,
        WOODCUTTER,
        MILITIA,
        WORKSHOP,
        MINE,
        REMODEL,
        CELLAR,
        MOAT,
    ]
}

pub const VP_PILE_COUNT_2P: i32 = 8;

pub const VP_PILE_COUNT_MP: i32 = 12;

pub const KINGDOM_PILE_COUNT: i32 = 10;

} // verus!

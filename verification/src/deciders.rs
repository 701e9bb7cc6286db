//! Simple decision strategies: the big-money heuristic and a uniformly
//! random player.

use vstd::prelude::*;

use crate::cards::{
    self, spec_coin_value, CardIdentifier, GOLD, PROVINCE, SILVER,
};
use crate::game::{Decider, Decision, DecisionType, Game};
use crate::rng::{randomly_seeded_weak_rng, WeakRng};
use crate::util::copy_cards;

verus! {

/// The coin value a card contributes when discarding low cards first: its
/// treasure value, or zero when it is no treasure.
pub open spec fn spec_coin_or_zero(id: u16) -> int {
    match spec_coin_value(id) {
        Some(v) => v as int,
        None => 0,
    }
}

/// The cards of `s` whose coin value is exactly `v`, in order.
pub open spec fn spec_cards_with_coin(s: Seq<CardIdentifier>, v: int) -> Seq<CardIdentifier>
    decreases s.len(),
{
    if s.len() == 0 {
        Seq::empty()
    } else {
        let rest = spec_cards_with_coin(s.drop_last(), v);
        if spec_coin_or_zero(s.last().0) == v {
            rest.push(s.last())
        } else {
            rest
        }
    }
}

/// The choices ordered by rising coin value (a stable bucket order: all
/// worthless cards first, then Coppers, Silvers, Golds).
pub open spec fn spec_by_rising_coin(s: Seq<CardIdentifier>) -> Seq<CardIdentifier> {
    spec_cards_with_coin(s, 0) + spec_cards_with_coin(s, 1) + spec_cards_with_coin(s, 2)
        + spec_cards_with_coin(s, 3)
}

/// The cards of `choices` with coin value `v`, in order.
fn cards_with_coin(choices: &Vec<CardIdentifier>, v: i32) -> (r: Vec<CardIdentifier>)
    requires
        cards::spec_all_valid(choices@),
    ensures
        r@ == spec_cards_with_coin(choices@, v as int),
{
    let mut r: Vec<CardIdentifier> = Vec::new();
    let mut i: usize = 0;
    proof {
        assert(choices@.take(0) =~= Seq::<CardIdentifier>::empty());
    }
    while i < choices.len()
        invariant
            i <= choices@.len(),
            cards::spec_all_valid(choices@),
            r@ == spec_cards_with_coin(choices@.take(i as int), v as int),
        decreases choices@.len() - i,
    {
        proof {
            assert(choices@.take(i + 1).drop_last() =~= choices@.take(i as int));
            assert(choices@.take(i + 1).last() == choices@[i as int]);
        }
        let c = choices[i];
        let card = cards::lookup_card(&c);
        let coin = match card.coin_value {
            Some(cv) => cv,
            None => 0,
        };
        if coin == v {
            r.push(c);
        }
        i = i + 1;
    }
    proof {
        assert(choices@.take(choices@.len() as int) =~= choices@);
    }
    r
}

/// The big-money heuristic: play every treasure, buy the best of Province,
/// Gold and Silver it can afford, discard and trash its cheapest cards, and
/// always reveal a reaction.  It never plays actions.
pub struct BigMoney;

/// What big money picks for each decision it accepts.
pub open spec fn spec_big_money_choice(d: Decision, coins: i32) -> Seq<CardIdentifier> {
    match d.decision_type {
        DecisionType::PlayAction => Seq::empty(),
        DecisionType::PlayTreasures => d.choices@,
        DecisionType::BuyCard => {
            if coins >= 8 {
                seq![CardIdentifier(PROVINCE)]
            } else if coins >= 6 {
                seq![CardIdentifier(GOLD)]
            } else if coins >= 3 {
                seq![CardIdentifier(SILVER)]
            } else {
                Seq::empty()
            }
        },
        DecisionType::DiscardCards(_) => spec_by_rising_coin(d.choices@).take(
            if d.range.0 <= d.choices@.len() {
                d.range.0 as int
            } else {
                d.choices@.len() as int
            },
        ),
        DecisionType::GainCard(_) => seq![d.choices@[0]],
        DecisionType::TrashCards(_) => d.choices@.take(
            if d.range.0 <= d.choices@.len() {
                d.range.0 as int
            } else {
                d.choices@.len() as int
            },
        ),
        DecisionType::RevealReaction(_) => seq![d.choices@[0]],
    }
}

impl Decider for BigMoney {
    open spec fn accepts(&self, g: &Game) -> bool {
        &&& g.pending_decision is Some
        &&& (g.pending_decision matches Some(d) ==> {
            &&& d.decision_type != DecisionType::PlayAction
            &&& cards::spec_all_valid(d.choices@)
            &&& (match d.decision_type {
                DecisionType::GainCard(_) => d.choices@.len() >= 1,
                DecisionType::RevealReaction(_) => d.choices@.len() >= 1,
                _ => true,
            })
        })
    }

    fn description(&self) -> String {
        "Big Money".to_owned()
    }

    fn make_decision(&mut self, g: &Game) -> (r: Vec<CardIdentifier>)
        ensures
            (g.pending_decision matches Some(d) ==> r@ == spec_big_money_choice(d, g.coins)),
    {
        let d = g.pending_decision.as_ref().unwrap();
        match d.decision_type {
            DecisionType::PlayAction => Vec::new(),
            DecisionType::PlayTreasures => copy_cards(&d.choices),
            DecisionType::BuyCard => {
                let mut v: Vec<CardIdentifier> = Vec::new();
                if g.coins >= 8 {
                    v.push(CardIdentifier(PROVINCE));
                } else if g.coins >= 6 {
                    v.push(CardIdentifier(GOLD));
                } else if g.coins >= 3 {
                    v.push(CardIdentifier(SILVER));
                }
                proof {
                    assert(v@ =~= spec_big_money_choice(
                        g.pending_decision->0,
                        g.coins,
                    ));
                }
                v
            },
            DecisionType::DiscardCards(_) => {
                let mut sorted = cards_with_coin(&d.choices, 0);
                let c1 = cards_with_coin(&d.choices, 1);
                let c2 = cards_with_coin(&d.choices, 2);
                let c3 = cards_with_coin(&d.choices, 3);
                crate::util::append_cards(&mut sorted, &c1);
                crate::util::append_cards(&mut sorted, &c2);
                crate::util::append_cards(&mut sorted, &c3);
                let keep = if d.range.0 <= d.choices.len() {
                    d.range.0
                } else {
                    d.choices.len()
                };
                proof {
                    lemma_buckets_cover(d.choices@);
                }
                sorted.truncate(keep);
                proof {
                    assert(sorted@ =~= spec_big_money_choice(g.pending_decision->0, g.coins));
                }
                sorted
            },
            DecisionType::GainCard(_) => {
                let mut v: Vec<CardIdentifier> = Vec::new();
                v.push(d.choices[0]);
                proof {
                    assert(v@ =~= seq![d.choices@[0]]);
                }
                v
            },
            DecisionType::TrashCards(_) => {
                let mut v = copy_cards(&d.choices);
                let keep = if d.range.0 <= d.choices.len() {
                    d.range.0
                } else {
                    d.choices.len()
                };
                v.truncate(keep);
                proof {
                    assert(v@ =~= spec_big_money_choice(g.pending_decision->0, g.coins));
                }
                v
            },
            DecisionType::RevealReaction(_) => {
                let mut v: Vec<CardIdentifier> = Vec::new();
                v.push(d.choices[0]);
                proof {
                    assert(v@ =~= seq![d.choices@[0]]);
                }
                v
            },
        }
    }
}

/// Every card falls in one of the four coin buckets, so the bucket order
/// has exactly the cards of the input.
proof fn lemma_buckets_cover(s: Seq<CardIdentifier>)
    requires
        cards::spec_all_valid(s),
    ensures
        spec_by_rising_coin(s).len() == s.len(),
    decreases s.len(),
{
    if s.len() > 0 {
        lemma_buckets_cover(s.drop_last());
        assert(cards::spec_all_valid(s.drop_last())) by {
            assert(forall|k: int| 0 <= k < s.len() - 1 ==> s.drop_last()[k] == s[k]);
        }
        assert(0 <= spec_coin_or_zero(s.last().0) <= 3);
    }
}

/// A strategy that answers every decision with a uniformly random
/// selection of an allowed size.
pub struct RandomDecider {
    pub rng: WeakRng,
}

impl RandomDecider {
    /// A random decider seeded from the operating system's entropy.
    pub fn new() -> RandomDecider {
        RandomDecider { rng: randomly_seeded_weak_rng() }
    }

    /// A random decider with a caller-chosen seed, for reproducible games.
    pub fn with_rng(rng: WeakRng) -> (r: RandomDecider)
        ensures
            r.rng == rng,
    {
        RandomDecider { rng }
    }
}

impl Decider for RandomDecider {
    open spec fn accepts(&self, g: &Game) -> bool {
        &&& g.pending_decision is Some
        &&& (g.pending_decision matches Some(d) ==> d.range.0 <= d.range.1 <= d.choices@.len()
            && d.range.1 < usize::MAX)
    }

    fn description(&self) -> String {
        "Random".to_owned()
    }

    fn make_decision(&mut self, g: &Game) -> (r: Vec<CardIdentifier>)
        ensures
            (g.pending_decision matches Some(d) ==> {
                &&& (d.decision_type == DecisionType::PlayTreasures ==> r@ == d.choices@)
                &&& (d.decision_type != DecisionType::PlayTreasures ==> {
                    &&& d.range.0 <= r@.len() <= d.range.1
                    &&& (forall|c: CardIdentifier| #[trigger] r@.to_multiset().count(c)
                        <= d.choices@.to_multiset().count(c))
                })
            }),
    {
        broadcast use vstd::seq_lib::group_to_multiset_ensures;
        broadcast use vstd::multiset::group_multiset_axioms;

        let d = g.pending_decision.as_ref().unwrap();
        if d.decision_type == DecisionType::PlayTreasures {
            return copy_cards(&d.choices);
        }
        let n: usize = if d.range.0 == d.range.1 {
            d.range.0
        } else {
            d.range.0 + self.rng.gen_index(d.range.1 - d.range.0 + 1)
        };
        let mut pool = copy_cards(&d.choices);
        let mut r: Vec<CardIdentifier> = Vec::new();
        proof {
            assert(r@.to_multiset() =~= vstd::multiset::Multiset::<CardIdentifier>::empty());
        }
        let mut k: usize = 0;
        while k < n
            invariant
                k <= n,
                n <= d.choices@.len(),
                d == g.pending_decision->0,
                r@.len() == k,
                pool@.len() == d.choices@.len() - k,
                pool@.to_multiset().add(r@.to_multiset()) == d.choices@.to_multiset(),
            decreases n - k,
        {
            broadcast use vstd::seq_lib::group_to_multiset_ensures;
            broadcast use vstd::multiset::group_multiset_axioms;

            let idx = self.rng.gen_index(pool.len());
            let picked = pool.remove(idx);
            r.push(picked);
            proof {
                assert(pool@.to_multiset().add(r@.to_multiset()) =~= d.choices@.to_multiset());
            }
            k = k + 1;
        }
        proof {
            assert forall|c: CardIdentifier| #[trigger] r@.to_multiset().count(c)
                <= d.choices@.to_multiset().count(c) by {
                assert(d.choices@.to_multiset().count(c) == pool@.to_multiset().count(c)
                    + r@.to_multiset().count(c));
            }
        }
        r
    }
}

} // verus!

//! Move enumeration for searching card-game decisions.
//!
//! A pending decision offers a set of cards and a count range; the moves a
//! search explores are every allowed selection: nothing (when allowed),
//! each single card, and every larger combination, in lexicographic order
//! of card positions.

use itertools::Itertools;

use vstd::prelude::*;

use crate::cards::CardIdentifier;
use crate::game::{Decision, DecisionType};
use crate::util::copy_cards;

verus! {

/// All `k`-element combinations of `s`, in lexicographic order of element
/// positions: first those containing `s[0]`, then those of the rest.
pub open spec fn spec_combinations(s: Seq<CardIdentifier>, k: nat) -> Seq<Seq<CardIdentifier>>
    decreases s.len(),
{
    if k == 0 {
        seq![Seq::<CardIdentifier>::empty()]
    } else if s.len() < k {
        Seq::empty()
    } else {
        spec_combinations(s.drop_first(), (k - 1) as nat).map_values(
            |c: Seq<CardIdentifier>| seq![s[0]] + c,
        ) + spec_combinations(s.drop_first(), k)
    }
}

/// The element views of a vector of card vectors.
pub open spec fn spec_views(r: Seq<Vec<CardIdentifier>>) -> Seq<Seq<CardIdentifier>> {
    Seq::new(r.len(), |i: int| r[i]@)
}

/// Relies on itertools' `combinations`: all `k`-element combinations of the
/// listed cards, in lexicographic order of element positions, one fresh
/// vector per combination.
#[verifier::external_body]
fn combinations_of(cards: &Vec<CardIdentifier>, k: usize) -> (r: Vec<Vec<CardIdentifier>>)
    ensures
        spec_views(r@) == spec_combinations(cards@, k as nat),
{
    cards.iter().combinations(k).map(|c| c.into_iter().copied().collect()).collect()
}

/// The single-card combinations are exactly the cards, each in its own
/// one-element list.
proof fn lemma_combinations_one(s: Seq<CardIdentifier>)
    ensures
        spec_combinations(s, 1) == Seq::new(s.len(), |j: int| seq![s[j]]),
    decreases s.len(),
{
    let target = Seq::new(s.len(), |j: int| seq![s[j]]);
    if s.len() == 0 {
        assert(spec_combinations(s, 1) =~= target);
    } else {
        lemma_combinations_one(s.drop_first());
        let first_part = spec_combinations(s.drop_first(), 0).map_values(
            |c: Seq<CardIdentifier>| seq![s[0]] + c,
        );
        assert(first_part.len() == 1);
        assert(first_part[0] =~= seq![s[0]]);
        let rest = spec_combinations(s.drop_first(), 1);
        assert forall|j: int| 0 <= j < s.len() implies spec_combinations(s, 1)[j] == target[j] by {
            if j > 0 {
                assert(rest[j - 1] == Seq::new(
                    s.drop_first().len(),
                    |m: int| seq![s.drop_first()[m]],
                )[j - 1]);
                assert(rest[j - 1] =~= seq![s[j]]);
            }
        }
        assert(spec_combinations(s, 1) =~= target);
    }
}

/// The moves a decision admits: for each allowed selection size from the
/// bottom to the top of the range, all combinations of that size.
pub open spec fn spec_decision_moves(choices: Seq<CardIdentifier>, lo: nat, hi: nat) -> Seq<
    Seq<CardIdentifier>,
>
    decreases hi,
{
    if hi < lo {
        Seq::empty()
    } else if hi == lo {
        spec_combinations(choices, lo)
    } else {
        spec_decision_moves(choices, lo, (hi - 1) as nat) + spec_combinations(choices, hi)
    }
}

/// A decision whose answer is forced rather than searched: all treasures
/// are always played.
pub fn hard_coded_decision(d: &Decision) -> (r: Option<Vec<CardIdentifier>>)
    ensures
        (match d.decision_type {
            DecisionType::PlayTreasures => r matches Some(v) && v@ == d.choices@,
            _ => r is None,
        }),
{
    match d.decision_type {
        DecisionType::PlayTreasures => Some(copy_cards(&d.choices)),
        _ => None,
    }
}

/// Every selection of cards the decision allows, smallest selections
/// first: the empty pick when permitted, then each single card, then the
/// larger combinations.
pub fn all_moves_for_decision(d: &Decision) -> (r: Vec<Vec<CardIdentifier>>)
    requires
        d.range.1 < usize::MAX,
    ensures
        spec_views(r@) == spec_decision_moves(d.choices@, d.range.0 as nat, d.range.1 as nat),
{
    let lo = d.range.0;
    let hi = d.range.1;
    let mut ret: Vec<Vec<CardIdentifier>> = Vec::new();
    let mut i: usize = lo;
    while i <= hi
        invariant
            lo <= i,
            hi < usize::MAX,
            lo == d.range.0,
            hi == d.range.1,
            i == lo || i <= hi + 1,
            i == lo ==> ret@.len() == 0,
            i > lo ==> spec_views(ret@) == spec_decision_moves(
                d.choices@,
                lo as nat,
                (i - 1) as nat,
            ),
        decreases hi + 1 - i,
    {
        let ghost pre_views = spec_views(ret@);
        let ghost block = spec_combinations(d.choices@, i as nat);
        if i == 0 {
            ret.push(Vec::new());
            proof {
                assert(spec_views(ret@) =~~= pre_views + block);
            }
        } else if i == 1 {
            proof {
                lemma_combinations_one(d.choices@);
            }
            let mut j: usize = 0;
            while j < d.choices.len()
                invariant
                    j <= d.choices@.len(),
                    block == spec_combinations(d.choices@, 1),
                    block == Seq::new(d.choices@.len(), |m: int| seq![d.choices@[m]]),
                    ret@.len() == pre_views.len() + j,
                    spec_views(ret@) == pre_views + block.take(j as int),
                decreases d.choices@.len() - j,
            {
                proof {
                    assert(block.take(j + 1) =~= block.take(j as int).push(block[j as int]));
                }
                let mut one: Vec<CardIdentifier> = Vec::new();
                one.push(d.choices[j]);
                let ghost prev_ret = ret@;
                let ghost one_view = one@;
                ret.push(one);
                proof {
                    assert(one_view =~= seq![d.choices@[j as int]]);
                    assert(ret@ == prev_ret.push(ret@[prev_ret.len() as int]));
                    assert(ret@[prev_ret.len() as int]@ == one_view);
                    assert forall|m: int|
                        0 <= m < ret@.len() implies spec_views(ret@)[m] == (pre_views + block.take(
                        j + 1,
                    ))[m] by {
                        if m < prev_ret.len() {
                            assert(ret@[m] == prev_ret[m]);
                            assert(spec_views(prev_ret)[m] == (pre_views + block.take(j as int))[m]);
                        } else {
                            assert(block.take(j + 1)[j as int] == block[j as int]);
                        }
                    }
                    assert(spec_views(ret@) =~= pre_views + block.take(j + 1));
                }
                j = j + 1;
            }
            proof {
                assert(block.take(block.len() as int) =~= block);
            }
        } else {
            let combos = combinations_of(&d.choices, i);
            let mut j: usize = 0;
            while j < combos.len()
                invariant
                    j <= combos@.len(),
                    spec_views(combos@) == block,
                    ret@.len() == pre_views.len() + j,
                    spec_views(ret@) == pre_views + spec_views(combos@).take(j as int),
                decreases combos@.len() - j,
            {
                proof {
                    assert(spec_views(combos@).take(j + 1) =~= spec_views(combos@).take(
                        j as int,
                    ).push(spec_views(combos@)[j as int]));
                }
                let c = copy_cards(&combos[j]);
                let ghost prev_ret = ret@;
                let ghost c_view = c@;
                ret.push(c);
                proof {
                    assert(c_view == combos@[j as int]@);
                    assert(ret@ == prev_ret.push(ret@[prev_ret.len() as int]));
                    assert(ret@[prev_ret.len() as int]@ == c_view);
                    assert forall|m: int|
                        0 <= m < ret@.len() implies spec_views(ret@)[m] == (pre_views + spec_views(
                        combos@,
                    ).take(j + 1))[m] by {
                        if m < prev_ret.len() {
                            assert(ret@[m] == prev_ret[m]);
                            assert(spec_views(prev_ret)[m] == (pre_views + spec_views(combos@).take(
                                j as int,
                            ))[m]);
                        } else {
                            assert(spec_views(combos@).take(j + 1)[j as int] == spec_views(
                                combos@,
                            )[j as int]);
                        }
                    }
                    assert(spec_views(ret@) =~= pre_views + spec_views(combos@).take(j + 1));
                }
                j = j + 1;
            }
            proof {
                assert(spec_views(combos@).take(combos@.len() as int) =~= spec_views(combos@));
            }
        }
        proof {
            assert(spec_views(ret@) =~~= pre_views + block);
            if i == lo {
                assert(pre_views =~= Seq::<Seq<CardIdentifier>>::empty());
                assert(spec_views(ret@) =~= spec_decision_moves(d.choices@, lo as nat, i as nat));
            } else {
                assert(spec_views(ret@) =~= spec_decision_moves(d.choices@, lo as nat, i as nat));
            }
        }
        i = i + 1;
    }
    proof {
        if i == lo {
            assert(spec_views(ret@) =~= spec_decision_moves(d.choices@, lo as nat, hi as nat));
        }
    }
    ret
}

} // verus!

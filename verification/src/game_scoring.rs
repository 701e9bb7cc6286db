//! End-of-game queries: whether the game is over, each player's victory
//! points, and who won.
//!
//! A game ends after a turn in which the Province pile or any three piles
//! ran empty.  Players are ranked by victory points, ties broken towards
//! fewer turns taken; everyone sharing the best (points, turns) pair wins.

use vstd::prelude::*;

use crate::cards::{self, spec_score, PROVINCE};
use crate::game::{
    spec_num_empty_piles, spec_pile_count, Game, Phase, PlayerIdentifier,
    EMPTY_PILES_FOR_GAME_END,
};

verus! {

/// Whether pair `a` ranks strictly better than `b`: more points, or equal
/// points in fewer turns.
pub open spec fn spec_pair_beats(a: (i32, i32), b: (i32, i32)) -> bool {
    a.0 > b.0 || (a.0 == b.0 && a.1 < b.1)
}

/// The best (points, turns) pair of a non-empty list.
pub open spec fn spec_high_pair(pairs: Seq<(i32, i32)>) -> (i32, i32)
    recommends
        pairs.len() >= 1,
    decreases pairs.len(),
{
    if pairs.len() <= 1 {
        pairs[0]
    } else {
        let h = spec_high_pair(pairs.drop_last());
        if spec_pair_beats(pairs.last(), h) {
            pairs.last()
        } else {
            h
        }
    }
}

/// The best pair is one of the pairs, and none ranks above it.
pub proof fn lemma_high_pair_is_max(pairs: Seq<(i32, i32)>)
    requires
        pairs.len() >= 1,
    ensures
        pairs.contains(spec_high_pair(pairs)),
        forall|k: int|
            0 <= k < pairs.len() ==> !spec_pair_beats(#[trigger] pairs[k], spec_high_pair(pairs)),
    decreases pairs.len(),
{
    if pairs.len() > 1 {
        lemma_high_pair_is_max(pairs.drop_last());
        let h = spec_high_pair(pairs.drop_last());
        assert(forall|k: int| 0 <= k < pairs.len() - 1 ==> pairs.drop_last()[k] == pairs[k]);
        if pairs.drop_last().contains(spec_high_pair(pairs)) {
            let j = choose|j: int|
                0 <= j < pairs.drop_last().len() && pairs.drop_last()[j] == spec_high_pair(pairs);
            assert(pairs[j] == spec_high_pair(pairs));
        }
    }
}

impl Game {
    /// The game ends after a turn in which the Province pile ran out or any
    /// three piles did.
    pub open spec fn spec_is_game_over(self) -> bool {
        self.phase == Phase::EndTurn && (spec_pile_count(self.piles@, PROVINCE) == 0
            || spec_num_empty_piles(self.piles@) >= EMPTY_PILES_FOR_GAME_END)
    }

    pub fn is_game_over(&self) -> (r: bool)
        ensures
            r == self.spec_is_game_over(),
    {
        if !(self.phase == Phase::EndTurn) {
            return false;
        }
        let mut province_count: i32 = 0;
        let mut found = false;
        let mut empties: usize = 0;
        let mut i: usize = 0;
        proof {
            assert(self.piles@.skip(0) =~= self.piles@);
            assert(self.piles@.take(0) =~= Seq::<(crate::cards::CardIdentifier, i32)>::empty());
        }
        while i < self.piles.len()
            invariant
                i <= self.piles@.len(),
                !found ==> spec_pile_count(self.piles@, PROVINCE) == spec_pile_count(
                    self.piles@.skip(i as int),
                    PROVINCE,
                ),
                found ==> spec_pile_count(self.piles@, PROVINCE) == province_count,
                !found ==> province_count == 0,
                empties == spec_num_empty_piles(self.piles@.take(i as int)),
                0 <= empties <= i,
            decreases self.piles@.len() - i,
        {
            proof {
                assert(self.piles@.skip(i as int).drop_first() =~= self.piles@.skip(i + 1));
                assert(self.piles@.skip(i as int)[0] == self.piles@[i as int]);
                assert(self.piles@.take(i + 1).drop_last() =~= self.piles@.take(i as int));
                assert(self.piles@.take(i + 1).last() == self.piles@[i as int]);
                lemma_num_empty_nonneg(self.piles@.take(i + 1));
            }
            let (ci, num) = self.piles[i];
            if !found && ci.0 == PROVINCE {
                province_count = num;
                found = true;
            }
            if num <= 0 {
                empties = empties + 1;
            }
            i = i + 1;
        }
        proof {
            assert(self.piles@.take(self.piles@.len() as int) =~= self.piles@);
            if !found {
                assert(self.piles@.skip(self.piles@.len() as int) =~= Seq::<(
                    crate::cards::CardIdentifier,
                    i32,
                )>::empty());
            }
        }
        province_count == 0 || empties >= (EMPTY_PILES_FOR_GAME_END as usize)
    }

    /// Each player's (victory points, turns taken) pair, in roster order:
    /// players up to and including the active one have completed the
    /// current turn number, the rest one fewer.
    pub open spec fn spec_vp_turns(self) -> Seq<(i32, i32)> {
        Seq::new(
            self.players@.len(),
            |i: int|
                (
                    spec_score(self.players@[i].spec_all_cards()) as i32,
                    if i <= self.active_player.0 {
                        self.turn
                    } else {
                        (self.turn - 1) as i32
                    },
                ),
        )
    }

    pub fn player_vp_and_turns(&self) -> (r: Vec<(i32, i32)>)
        requires
            self.inv(),
        ensures
            r@ == self.spec_vp_turns(),
    {
        let mut r: Vec<(i32, i32)> = Vec::new();
        let mut i: usize = 0;
        while i < self.players.len()
            invariant
                self.inv(),
                i <= self.players@.len(),
                r@.len() == i,
                forall|k: int| 0 <= k < i ==> #[trigger] r@[k] == self.spec_vp_turns()[k],
            decreases self.players@.len() - i,
        {
            let p = &self.players[i];
            let all = p.all_cards();
            proof {
                assert(self.players@[i as int].wf());
                let h = p.hand@;
                let d = p.deck@;
                let c = p.discard@;
                assert forall|k: int|
                    0 <= k < all@.len() implies cards::spec_valid_card(
                    #[trigger] all@[k].0,
                ) by {
                    if k < h.len() {
                        assert(all@[k] == h[k]);
                    } else if k < h.len() + d.len() {
                        assert(all@[k] == d[k - h.len()]);
                    } else {
                        assert(all@[k] == c[k - h.len() - d.len()]);
                    }
                }
            }
            let score = cards::score_cards(&all);
            let turns = if i <= self.active_player.0 as usize {
                self.turn
            } else {
                self.turn - 1
            };
            r.push((score, turns));
            i = i + 1;
        }
        proof {
            assert(r@ =~= self.spec_vp_turns());
        }
        r
    }

    /// The players who share the best (points, turns) pair: the winners of
    /// a finished game, in roster order.  At least one player always wins —
    /// an ended game never reports an empty winner set.
    pub fn winning_players(&self) -> (r: Vec<PlayerIdentifier>)
        requires
            self.inv(),
        ensures
            r@.len() >= 1,
            forall|k: int| 0 <= k < r@.len() ==> (#[trigger] r@[k].0 as int) < self.players@.len(),
            forall|k1: int, k2: int| 0 <= k1 < k2 < r@.len() ==> #[trigger] r@[k1].0 < #[trigger] r@[k2].0,
            forall|k: int|
                0 <= k < r@.len() ==> self.spec_vp_turns()[#[trigger] r@[k].0 as int]
                    == spec_high_pair(self.spec_vp_turns()),
            forall|i: int|
                0 <= i < self.players@.len() && #[trigger] self.spec_vp_turns()[i]
                    == spec_high_pair(self.spec_vp_turns()) ==> r@.contains(
                    PlayerIdentifier(i as u8),
                ),
    {
        let points = self.player_vp_and_turns();
        let ghost pairs = self.spec_vp_turns();
        let mut high = points[0];
        let mut i: usize = 1;
        proof {
            assert(pairs.take(1) =~= seq![pairs[0]]);
        }
        while i < points.len()
            invariant
                1 <= i <= points@.len(),
                points@ == pairs,
                pairs.len() == self.players@.len(),
                high == spec_high_pair(pairs.take(i as int)),
            decreases points@.len() - i,
        {
            proof {
                assert(pairs.take(i + 1).drop_last() =~= pairs.take(i as int));
                assert(pairs.take(i + 1).last() == pairs[i as int]);
            }
            let p = points[i];
            if p.0 > high.0 || (p.0 == high.0 && p.1 < high.1) {
                high = p;
            }
            i = i + 1;
        }
        proof {
            assert(pairs.take(pairs.len() as int) =~= pairs);
            lemma_high_pair_is_max(pairs);
        }
        let mut r: Vec<PlayerIdentifier> = Vec::new();
        let mut j: usize = 0;
        while j < points.len()
            invariant
                j <= points@.len(),
                points@ == pairs,
                pairs.len() == self.players@.len(),
                self.players@.len() <= 255,
                high == spec_high_pair(pairs),
                forall|k: int| 0 <= k < r@.len() ==> 0 <= (#[trigger] r@[k].0 as int) < j,
                forall|k1: int, k2: int|
                    0 <= k1 < k2 < r@.len() ==> #[trigger] r@[k1].0 < #[trigger] r@[k2].0,
                forall|k: int|
                    0 <= k < r@.len() ==> pairs[#[trigger] r@[k].0 as int] == spec_high_pair(pairs),
                forall|i2: int|
                    0 <= i2 < j && #[trigger] pairs[i2] == spec_high_pair(pairs) ==> r@.contains(
                        PlayerIdentifier(i2 as u8),
                    ),
            decreases points@.len() - j,
        {
            let p = points[j];
            if p.0 == high.0 && p.1 == high.1 {
                let ghost old_r = r@;
                r.push(PlayerIdentifier(j as u8));
                proof {
                    assert(r@.last() == PlayerIdentifier(j as u8));
                    assert forall|i2: int|
                        0 <= i2 < j + 1 && #[trigger] pairs[i2] == spec_high_pair(pairs) implies r@.contains(
                        PlayerIdentifier(i2 as u8),
                    ) by {
                        if i2 < j {
                            let k = choose|k: int|
                                0 <= k < old_r.len() && #[trigger] old_r[k] == PlayerIdentifier(
                                    i2 as u8,
                                );
                            assert(r@[k] == PlayerIdentifier(i2 as u8));
                        } else {
                            assert(r@[r@.len() - 1] == PlayerIdentifier(i2 as u8));
                        }
                    }
                }
            }
            j = j + 1;
        }
        proof {
            // The best pair occurs somewhere, so some player was pushed.
            let w = choose|w: int| 0 <= w < pairs.len() && pairs[w] == spec_high_pair(pairs);
            assert(r@.contains(PlayerIdentifier(w as u8)));
        }
        r
    }
}

proof fn lemma_num_empty_nonneg(piles: Seq<(crate::cards::CardIdentifier, i32)>)
    ensures
        0 <= spec_num_empty_piles(piles) <= piles.len(),
    decreases piles.len(),
{
    if piles.len() > 0 {
        lemma_num_empty_nonneg(piles.drop_last());
    }
}

} // verus!

//! Small helpers for working with vectors of card identifiers.

use vstd::prelude::*;

use vstd::multiset::Multiset;

use crate::cards::CardIdentifier;

verus! {

/// A fresh copy of a card list.
pub fn copy_cards(v: &Vec<CardIdentifier>) -> (r: Vec<CardIdentifier>)
    ensures
        r@ == v@,
{
    let mut r: Vec<CardIdentifier> = Vec::new();
    let mut i: usize = 0;
    while i < v.len()
        invariant
            i <= v@.len(),
            r@ == v@.take(i as int),
        decreases v@.len() - i,
    {
        proof {
            assert(v@.take(i + 1).drop_last() =~= v@.take(i as int));
            assert(v@.take(i + 1).last() == v@[i as int]);
        }
        r.push(v[i]);
        i = i + 1;
    }
    proof {
        assert(v@.take(v@.len() as int) =~= v@);
    }
    r
}

/// Appends a copy of `src` to `dst`.
pub fn append_cards(dst: &mut Vec<CardIdentifier>, src: &Vec<CardIdentifier>)
    ensures
        final(dst)@ == old(dst)@ + src@,
{
    let mut i: usize = 0;
    while i < src.len()
        invariant
            i <= src@.len(),
            dst@ == old(dst)@ + src@.take(i as int),
        decreases src@.len() - i,
    {
        proof {
            assert(src@.take(i + 1) =~= src@.take(i as int).push(src@[i as int]));
            assert(old(dst)@ + src@.take(i + 1) =~= (old(dst)@ + src@.take(i as int)).push(
                src@[i as int],
            ));
        }
        dst.push(src[i]);
        i = i + 1;
    }
    proof {
        assert(src@.take(src@.len() as int) =~= src@);
    }
}

/// `vs` with the first occurrence of `c` removed (scanning from the
/// front); unchanged when `c` does not occur.
pub open spec fn spec_remove_first(vs: Seq<CardIdentifier>, c: CardIdentifier) -> Seq<
    CardIdentifier,
>
    decreases vs.len(),
{
    if vs.len() == 0 {
        vs
    } else if vs[0] == c {
        vs.drop_first()
    } else {
        seq![vs[0]] + spec_remove_first(vs.drop_first(), c)
    }
}

/// `vs` with one occurrence of each listed card removed: the cards are
/// taken in list order, each removal taking the first occurrence and
/// keeping the remaining order.
pub open spec fn spec_subtract(vs: Seq<CardIdentifier>, s: Seq<CardIdentifier>) -> Seq<
    CardIdentifier,
>
    decreases s.len(),
{
    if s.len() == 0 {
        vs
    } else {
        spec_remove_first(spec_subtract(vs, s.drop_last()), s.last())
    }
}

/// Removing the first occurrence, found at index `j`, is `remove(j)`.
proof fn lemma_remove_first_at(vs: Seq<CardIdentifier>, j: int)
    requires
        0 <= j < vs.len(),
        forall|k: int| 0 <= k < j ==> vs[k] != vs[j],
    ensures
        spec_remove_first(vs, vs[j]) == vs.remove(j),
    decreases j,
{
    if j == 0 {
        assert(vs.remove(0) =~= vs.drop_first());
    } else {
        assert(vs.drop_first()[j - 1] == vs[j]);
        assert(forall|k: int| 0 <= k < j - 1 ==> vs.drop_first()[k] == vs[k + 1]);
        lemma_remove_first_at(vs.drop_first(), j - 1);
        assert(seq![vs[0]] + vs.drop_first().remove(j - 1) =~= vs.remove(j));
    }
}

/// Removes one occurrence of each card in `s` from `vs` (the first
/// occurrence, scanning from the front, keeping the remaining order).
/// Every listed card must be present at least as often as it is listed.
pub fn subtract_vector(vs: &mut Vec<CardIdentifier>, s: &Vec<CardIdentifier>)
    requires
        forall|c: CardIdentifier| #[trigger] s@.to_multiset().count(c) <= old(
            vs,
        )@.to_multiset().count(c),
    ensures
        final(vs)@ == spec_subtract(old(vs)@, s@),
        final(vs)@.to_multiset() == old(vs)@.to_multiset().sub(s@.to_multiset()),
        final(vs)@.len() == old(vs)@.len() - s@.len(),
{
    broadcast use vstd::seq_lib::group_to_multiset_ensures;
    broadcast use vstd::multiset::group_multiset_axioms;

    let mut i: usize = 0;
    proof {
        assert(s@.take(0) =~= Seq::<CardIdentifier>::empty());
        assert(Seq::<CardIdentifier>::empty().to_multiset() =~= Multiset::<CardIdentifier>::empty());
        assert(vs@.to_multiset() =~= vs@.to_multiset().sub(
            Seq::<CardIdentifier>::empty().to_multiset(),
        ));
    }
    while i < s.len()
        invariant
            i <= s@.len(),
            forall|c: CardIdentifier| #[trigger] s@.to_multiset().count(c) <= old(
                vs,
            )@.to_multiset().count(c),
            vs@.to_multiset() == old(vs)@.to_multiset().sub(s@.take(i as int).to_multiset()),
            vs@ == spec_subtract(old(vs)@, s@.take(i as int)),
            vs@.len() == old(vs)@.len() - i,
        decreases s@.len() - i,
    {
        broadcast use vstd::seq_lib::group_to_multiset_ensures;
        broadcast use vstd::multiset::group_multiset_axioms;

        let target = s[i];
        proof {
            // `target` still occurs in `vs`: it is listed one more time in
            // `s` than in the prefix already removed.
            assert(s@.take(i + 1) =~= s@.take(i as int).push(target));
            assert(s@.take(i + 1).to_multiset() =~= s@.take(i as int).to_multiset().insert(target));
            lemma_take_multiset_le(s@, i as int + 1);
            assert(s@.take(i + 1).to_multiset().count(target) <= s@.to_multiset().count(target));
            assert(s@.take(i as int).to_multiset().count(target) + 1 <= old(
                vs,
            )@.to_multiset().count(target));
            assert(vs@.to_multiset().count(target) >= 1);
            assert(vs@.contains(target));
        }
        let ghost pre = vs@;
        let mut j: usize = 0;
        while j < vs.len() && vs[j] != target
            invariant
                j <= vs@.len(),
                vs@ == pre,
                vs@.contains(target),
                forall|k: int| 0 <= k < j ==> vs@[k] != target,
            decreases vs@.len() - j,
        {
            j = j + 1;
        }
        proof {
            if j == vs@.len() {
                let w = choose|w: int| 0 <= w < vs@.len() && vs@[w] == target;
                assert(false);
            }
            assert(vs@[j as int] == target);
        }
        let _removed = vs.remove(j);
        proof {
            assert(vs@ =~= pre.remove(j as int));
            lemma_remove_first_at(pre, j as int);
            assert(s@.take(i + 1).drop_last() =~= s@.take(i as int));
            assert(s@.take(i + 1).last() == target);
            assert(vs@ == spec_subtract(old(vs)@, s@.take(i + 1)));
            assert(s@.take(i + 1) =~= s@.take(i as int).push(target));
            assert(s@.take(i + 1).to_multiset() =~= s@.take(i as int).to_multiset().insert(target));
            assert(vs@.to_multiset() =~= pre.to_multiset().remove(target));
            assert forall|c: CardIdentifier|
                vs@.to_multiset().count(c) == old(vs)@.to_multiset().sub(
                    s@.take(i + 1).to_multiset(),
                ).count(c) by {
                assert(pre.to_multiset().count(c) == old(vs)@.to_multiset().sub(
                    s@.take(i as int).to_multiset(),
                ).count(c));
            }
            assert(vs@.to_multiset() =~= old(vs)@.to_multiset().sub(
                s@.take(i + 1).to_multiset(),
            ));
        }
        i = i + 1;
    }
    proof {
        assert(s@.take(s@.len() as int) =~= s@);
    }
}

/// Rearranges the cards into a uniformly random order drawn from `rng`:
/// the same cards come back, in an order determined by the generator state.
pub fn shuffle_cards(cards: &mut Vec<CardIdentifier>, rng: &mut crate::rng::WeakRng)
    ensures
        final(cards)@.to_multiset() == old(cards)@.to_multiset(),
        final(cards)@.len() == old(cards)@.len(),
{
    broadcast use vstd::seq_lib::group_to_multiset_ensures;
    broadcast use vstd::multiset::group_multiset_axioms;

    let mut pool = copy_cards(cards);
    cards.clear();
    proof {
        assert(cards@.to_multiset() =~= Multiset::<CardIdentifier>::empty());
    }
    while pool.len() > 0
        invariant
            pool@.to_multiset().add(cards@.to_multiset()) == old(cards)@.to_multiset(),
            pool@.len() + cards@.len() == old(cards)@.len(),
        decreases pool@.len(),
    {
        broadcast use vstd::seq_lib::group_to_multiset_ensures;
        broadcast use vstd::multiset::group_multiset_axioms;

        let idx = rng.gen_index(pool.len());
        let picked = pool.remove(idx);
        cards.push(picked);
        proof {
            assert(pool@.to_multiset().add(cards@.to_multiset()) =~= old(cards)@.to_multiset());
        }
    }
}

/// Multiset-equal card lists hold the same cards, so validity carries over.
pub proof fn lemma_valid_from_multiset(a: Seq<CardIdentifier>, b: Seq<CardIdentifier>)
    requires
        a.to_multiset() == b.to_multiset(),
        crate::cards::spec_all_valid(a),
    ensures
        crate::cards::spec_all_valid(b),
{
    broadcast use vstd::seq_lib::group_to_multiset_ensures;

    assert forall|k: int| 0 <= k < b.len() implies crate::cards::spec_valid_card(
        #[trigger] b[k].0,
    ) by {
        assert(b.contains(b[k]));
        assert(b.to_multiset().count(b[k]) > 0);
        assert(a.contains(b[k]));
    }
}

/// Each card is listed in a prefix at most as often as in the whole list.
proof fn lemma_take_multiset_le(s: Seq<CardIdentifier>, i: int)
    requires
        0 <= i <= s.len(),
    ensures
        forall|c: CardIdentifier| #[trigger] s.take(i).to_multiset().count(c)
            <= s.to_multiset().count(c),
    decreases s.len() - i,
{
    broadcast use vstd::seq_lib::group_to_multiset_ensures;
    broadcast use vstd::multiset::group_multiset_axioms;

    if i < s.len() {
        lemma_take_multiset_le(s, i + 1);
        assert(s.take(i + 1) =~= s.take(i).push(s[i]));
        assert(s.take(i + 1).to_multiset() =~= s.take(i).to_multiset().insert(s[i]));
        assert forall|c: CardIdentifier| #[trigger] s.take(i).to_multiset().count(c)
            <= s.to_multiset().count(c) by {
            assert(s.take(i).to_multiset().insert(s[i]).count(c) >= s.take(
                i,
            ).to_multiset().count(c));
            assert(s.take(i + 1).to_multiset().count(c) <= s.to_multiset().count(c));
        }
    } else {
        assert(s.take(i) =~= s);
    }
}

} // verus!

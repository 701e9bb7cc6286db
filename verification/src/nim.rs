//! The two-player subtraction game, a small domain for the search engine.
//!
//! A shared total starts positive; each turn the active player removes one,
//! two or three, and the player who takes the last token (reduces the total
//! to zero) wins.  From a total that is a multiple of four the mover loses
//! against best play, so from fifteen the winning move is three.

use vstd::prelude::*;

use crate::tree_search::{SearchableState, Winners};

verus! {

/// A position of the subtraction game: the remaining total and whose turn
/// it is (player `0` or `1`).
#[derive(Clone, Copy, Debug, PartialEq, Eq, Structural)]
pub struct NimState {
    pub total: i32,
    pub player_turn: i32,
}

impl NimState {
    pub fn new(total: i32, player_turn: i32) -> (r: NimState)
        requires
            total >= 0,
            player_turn == 0 || player_turn == 1,
        ensures
            r == (NimState { total, player_turn }),
            r.inv(),
    {
        NimState { total, player_turn }
    }

    pub fn total(&self) -> (r: i32)
        ensures
            r == self.total,
    {
        self.total
    }

    pub fn player_turn(&self) -> (r: i32)
        ensures
            r == self.player_turn,
    {
        self.player_turn
    }
}

impl SearchableState for NimState {
    type P = i32;

    type M = i32;

    type C = ();

    open spec fn inv(&self) -> bool {
        0 <= self.total && (self.player_turn == 0 || self.player_turn == 1)
    }

    open spec fn is_terminal(&self) -> bool {
        self.total == 0
    }

    open spec fn spec_players(&self) -> Seq<i32> {
        seq![0i32, 1i32]
    }

    open spec fn spec_active(&self) -> Option<i32> {
        if self.total == 0 {
            None
        } else {
            Some(self.player_turn)
        }
    }

    open spec fn spec_moves(&self) -> Seq<i32> {
        if self.total >= 3 {
            seq![1i32, 2i32, 3i32]
        } else if self.total == 2 {
            seq![1i32, 2i32]
        } else if self.total == 1 {
            seq![1i32]
        } else {
            Seq::empty()
        }
    }

    open spec fn spec_winners(&self) -> Seq<i32> {
        if self.player_turn == 0 {
            seq![1i32]
        } else {
            seq![0i32]
        }
    }

    open spec fn spec_next(&self, m: i32, c: ()) -> (Self, ()) {
        (
            NimState {
                total: (self.total - m) as i32,
                player_turn: if self.player_turn == 0 {
                    1
                } else {
                    0
                },
            },
            c,
        )
    }

    proof fn lemma_state_contract(&self) {
    }

    fn game_result(&self) -> (r: Option<Winners<i32>>) {
        if self.total == 0 {
            let last_player = (self.player_turn + 1) % 2;
            let mut v: Vec<i32> = Vec::new();
            v.push(last_player);
            proof {
                assert(v@ =~= self.spec_winners());
            }
            Some(Winners(v))
        } else {
            None
        }
    }

    fn all_players(&self) -> (r: Vec<i32>) {
        let mut v: Vec<i32> = Vec::new();
        v.push(0);
        v.push(1);
        proof {
            assert(v@ =~= seq![0i32, 1i32]);
        }
        v
    }

    fn active_player(&self) -> (r: Option<i32>) {
        if self.total == 0 {
            None
        } else {
            Some(self.player_turn)
        }
    }

    fn all_moves(&self) -> (r: Vec<i32>) {
        let mut v: Vec<i32> = Vec::new();
        if self.total >= 1 {
            v.push(1);
        }
        if self.total >= 2 {
            v.push(2);
        }
        if self.total >= 3 {
            v.push(3);
        }
        proof {
            assert(v@ =~= self.spec_moves());
        }
        v
    }

    fn make_move(&self, choice: i32, _ctx: &mut ()) -> (r: Self) {
        proof {
            lemma_nim_move_in_range(*self, choice);
        }
        NimState { total: self.total - choice, player_turn: (self.player_turn + 1) % 2 }
    }

    fn make_move_mut(&mut self, choice: i32, _ctx: &mut ()) {
        proof {
            lemma_nim_move_in_range(*old(self), choice);
        }
        self.total = self.total - choice;
        self.player_turn = (self.player_turn + 1) % 2;
    }

    fn clone_state(&self) -> (r: Self) {
        *self
    }

    fn clone_move(m: &i32) -> (r: i32) {
        *m
    }

    fn eq_player(a: &i32, b: &i32) -> (r: bool) {
        *a == *b
    }

    fn printable_player_identifier(&self, p: &i32) -> String {
        if *p == 0 {
            "Player 0".to_owned()
        } else {
            "Player 1".to_owned()
        }
    }
}

/// A legal move removes between one and three tokens, never more than are
/// left.
proof fn lemma_nim_move_in_range(s: NimState, choice: i32)
    requires
        s.inv(),
        s.spec_moves().contains(choice),
    ensures
        1 <= choice <= 3,
        choice <= s.total,
{
    let j = choose|j: int| 0 <= j < s.spec_moves().len() && s.spec_moves()[j] == choice;
    assert(1 <= choice <= 3 && choice <= s.total);
}

} // verus!


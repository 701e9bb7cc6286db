use tactician::nim::NimState;
use tactician::tree_search::SearchableState;
use tactician::rng::WeakRng;
use tactician::tree_search::{find_best_move, search_tree, Winners, WIN_UNIT};

fn seeded_rng() -> WeakRng {
    WeakRng::from_seed(0x1234_5678, 0x9abc_def0, 0x0f1e_2d3c, 0x4b5a_6978)
}

#[test]
fn test_nim_search() {
    let start_state = NimState::new(15, 0);
    let mut rng = seeded_rng();
    let best_move = find_best_move(start_state, 10000, &mut (), &mut rng);
    assert_eq!(best_move, 3);
}

#[test]
fn test_rng_is_deterministic() {
    let mut a = seeded_rng();
    let mut b = seeded_rng();
    for _ in 0..100 {
        assert_eq!(a.next_u32(), b.next_u32());
    }
    let mut c = WeakRng::from_seed(1, 2, 3, 4);
    for _ in 0..100 {
        let i = c.gen_index(7);
        assert!(i < 7);
    }
}

#[test]
fn test_search_is_deterministic() {
    // Two searches from the same root with identically seeded generators
    // recommend the same move.
    let mut rng1 = seeded_rng();
    let mut rng2 = seeded_rng();
    let m1 = find_best_move(NimState::new(9, 0), 500, &mut (), &mut rng1);
    let m2 = find_best_move(NimState::new(9, 0), 500, &mut (), &mut rng2);
    assert_eq!(m1, m2);
}

#[test]
fn test_single_iteration_returns_legal_move() {
    // The minimum supported budget: one iteration expands one root child
    // and recommends its move.  (A budget of zero is ruled out by the
    // engine's contract: with no explored child there is nothing to
    // recommend.)
    let mut rng = seeded_rng();
    let m = find_best_move(NimState::new(15, 0), 1, &mut (), &mut rng);
    assert!(m >= 1 && m <= 3);
}

#[test]
fn test_forced_move() {
    // From a total of one the only legal move is to take the last token.
    let mut rng = seeded_rng();
    let m = find_best_move(NimState::new(1, 0), 50, &mut (), &mut rng);
    assert_eq!(m, 1);
}

#[test]
fn test_root_visit_accounting() {
    // After N iterations the root records N visits, and they distribute
    // exactly over its children.
    let mut rng = seeded_rng();
    let iterations = 300;
    let t = search_tree(NimState::new(15, 0), iterations, &mut (), &mut rng);
    assert_eq!(t.nodes[0].visits, iterations as u64);
    let child_sum: u64 = t.nodes[0].children.iter().map(|&c| t.nodes[c].visits).sum();
    assert_eq!(child_sum, iterations as u64);
}

#[test]
fn test_tree_bound() {
    // However long the rollouts run, each iteration creates at most one
    // node: the tree never exceeds the root plus one node per iteration.
    let mut rng = seeded_rng();
    let iterations = 200;
    let t = search_tree(NimState::new(40, 0), iterations, &mut (), &mut rng);
    assert!(t.nodes.len() <= (iterations as usize) + 1);
}

#[test]
fn test_win_credit_bounded() {
    // No node accrues more than one whole win per visit.
    let mut rng = seeded_rng();
    let t = search_tree(NimState::new(12, 0), 400, &mut (), &mut rng);
    for n in t.nodes.iter() {
        assert!(n.wins <= n.visits * WIN_UNIT);
    }
}

#[test]
fn test_most_visited_child_is_stable() {
    // Repeated queries on an unmodified node return the same child.
    let mut rng = seeded_rng();
    let t = search_tree(NimState::new(15, 0), 250, &mut (), &mut rng);
    let first = t.most_visited_child(0);
    let second = t.most_visited_child(0);
    let third = t.most_visited_child(0);
    assert_eq!(first, second);
    assert_eq!(second, third);
}

#[test]
fn test_tied_outcome_credits_half() {
    // A terminal outcome naming two winners credits a qualifying node half
    // a win rather than a whole one.
    let mut rng = seeded_rng();
    let mut t = search_tree(NimState::new(15, 0), 5, &mut (), &mut rng);
    let child = t.nodes[0].children[0];
    let before = t.nodes[child].wins;
    let visits_before = t.nodes[child].visits;
    t.backpropagate(child, &Winners(vec![0, 1]));
    assert_eq!(t.nodes[child].wins, before + WIN_UNIT / 2);
    assert_eq!(t.nodes[child].visits, visits_before + 1);
}

#[test]
fn test_single_winner_credits_whole_win() {
    let mut rng = seeded_rng();
    let mut t = search_tree(NimState::new(15, 0), 5, &mut (), &mut rng);
    let child = t.nodes[0].children[0];
    let pjm = t.nodes[child].player_just_moved;
    let before = t.nodes[child].wins;
    t.backpropagate(child, &Winners(vec![pjm]));
    assert_eq!(t.nodes[child].wins, before + WIN_UNIT);
}

#[test]
fn test_nim_game_result() {
    // A concluded game names a winner; an unfinished one names none.
    let terminal = NimState::new(0, 1);
    let result = terminal.game_result().unwrap();
    assert_eq!(result.0, vec![0]);
    assert!(NimState::new(3, 0).game_result().is_none());
    assert_eq!(NimState::new(2, 0).all_moves(), vec![1, 2]);
    assert_eq!(NimState::new(0, 0).all_moves(), Vec::<i32>::new());
}

#[test]
fn test_child_move_stats() {
    let mut rng = seeded_rng();
    let t = search_tree(NimState::new(15, 0), 120, &mut (), &mut rng);
    let stats = t.child_move_stats(0);
    assert_eq!(stats.len(), t.nodes[0].children.len());
    let visit_total: u64 = stats.iter().map(|s| s.visits).sum();
    assert_eq!(visit_total, 120);
    for s in stats.iter() {
        assert!(s.last_move >= 1 && s.last_move <= 3);
    }
}

#[test]
fn test_nim_active_player_absent_when_over() {
    // The active player is pending only while the game runs; a concluded
    // state reports none.
    assert_eq!(NimState::new(4, 1).active_player(), Some(1));
    assert_eq!(NimState::new(0, 1).active_player(), None);
}

#[test]
fn test_sorted_child_move_stats() {
    let mut rng = seeded_rng();
    let t = search_tree(NimState::new(15, 0), 200, &mut (), &mut rng);
    let sorted = t.sorted_child_move_stats(0);
    let unsorted = t.child_move_stats(0);
    assert_eq!(sorted.len(), unsorted.len());
    for w in sorted.windows(2) {
        // Falling win rate: a/b >= c/d as a*d >= c*b.
        assert!(
            (w[0].wins as u128) * (w[1].visits as u128)
                >= (w[1].wins as u128) * (w[0].visits as u128)
        );
    }
    let total_sorted: u64 = sorted.iter().map(|s| s.visits).sum();
    let total_unsorted: u64 = unsorted.iter().map(|s| s.visits).sum();
    assert_eq!(total_sorted, total_unsorted);
}

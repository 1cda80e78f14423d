use std::time::Duration;

use klondike::cards::safe_to_foundation;
use klondike::kplus::KPlus;
use klondike::search::{hash_state, initial_state, solve_deck, SolveResult};

#[test]
fn test_safe_to_foundation_basics() {
    let f = vec![-1i8; 4];
    assert!(safe_to_foundation(0, &f));
    assert!(safe_to_foundation(13 + 1, &f));
    assert!(!safe_to_foundation(26 + 4, &f));
}

#[test]
fn test_kplus_indices() {
    let mut k = KPlus {
        stock: (0..24u8).collect(),
        draw: 3,
        phase: 2,
    };
    let idxs: Vec<_> = k.playable_indices();
    assert!(idxs.iter().all(|&i| i % 3 == 2));
    let first = idxs[0];
    let c = k.take_at(first);
    assert_eq!(c, 2);
    assert_eq!(k.phase, 1);
}

#[test]
fn test_solve_trivial() {
    let mut deck = [0u8; 52];
    for (i, slot) in deck.iter_mut().enumerate() {
        *slot = i as u8;
    }
    let res = solve_deck(&deck, 1, Duration::from_millis(200));
    assert!(matches!(
        res,
        SolveResult::Winnable | SolveResult::Timeout | SolveResult::Unwinnable
    ));
}

#[test]
fn kplus_playable_indices_exact() {
    let k = KPlus {
        stock: (0..24u8).collect(),
        draw: 3,
        phase: 2,
    };
    assert_eq!(
        k.playable_indices(),
        vec![2usize, 5, 8, 11, 14, 17, 20, 23]
    );
}

#[test]
fn kplus_draw_one_everything_playable() {
    let k = KPlus {
        stock: (0..5u8).collect(),
        draw: 1,
        phase: 0,
    };
    assert_eq!(k.playable_indices(), vec![0usize, 1, 2, 3, 4]);
}

#[test]
fn safe_to_foundation_rank_two_needs_opposite_aces() {
    // Rank 2 of clubs (code 2): safe only once both red foundations
    // (diamonds, hearts) hold at least their Ace.
    assert!(!safe_to_foundation(2, &vec![-1i8, -1, -1, -1]));
    assert!(!safe_to_foundation(2, &vec![-1i8, 0, -1, -1]));
    assert!(safe_to_foundation(2, &vec![-1i8, 0, 0, -1]));
    // An Ace is always safe with empty foundations.
    assert!(safe_to_foundation(0, &vec![-1i8, -1, -1, -1]));
    assert!(safe_to_foundation(13, &vec![-1i8, -1, -1, -1]));
    assert!(safe_to_foundation(26, &vec![-1i8, -1, -1, -1]));
    assert!(safe_to_foundation(39, &vec![-1i8, -1, -1, -1]));
}

/// A deck laid out so that dealing plus normalization alone completes all
/// four foundations: the stock holds the first 24 cards of a
/// rank-major promotion order, and each tableau pile continues that order
/// from its top downward.
fn auto_winning_deck() -> [u8; 52] {
    let mut order: Vec<u8> = Vec::new();
    for r in 0..13u8 {
        for s in 0..4u8 {
            order.push(s * 13 + r);
        }
    }
    let offs = [0usize, 1, 3, 6, 10, 15, 21];
    let starts = [51usize, 49, 46, 42, 37, 31, 24];
    let mut deck = [0u8; 52];
    for j in 0..7 {
        for t in 0..=j {
            deck[offs[j] + t] = order[starts[j] + j - t];
        }
    }
    for t in 0..24 {
        deck[28 + t] = order[t];
    }
    deck
}

#[test]
fn solve_auto_winning_deck() {
    let deck = auto_winning_deck();
    let res = solve_deck(&deck, 1, Duration::from_millis(200));
    assert_eq!(res, SolveResult::Winnable);
}

#[test]
fn solve_is_deterministic_when_decided() {
    let deck = auto_winning_deck();
    let a = solve_deck(&deck, 1, Duration::from_millis(500));
    let b = solve_deck(&deck, 1, Duration::from_millis(500));
    assert_eq!(a, b);
    assert_eq!(a, SolveResult::Winnable);
}

#[test]
fn solve_verdict_stable_under_larger_budget() {
    let deck = auto_winning_deck();
    let small = solve_deck(&deck, 1, Duration::from_millis(200));
    let large = solve_deck(&deck, 1, Duration::from_millis(2000));
    assert_eq!(small, SolveResult::Winnable);
    assert_eq!(large, SolveResult::Winnable);
}

#[test]
fn solve_draw_three_runs() {
    let deck = auto_winning_deck();
    // Under draw-3 the same deal is still decided quickly here; any verdict
    // must be one of the three values and repeatable.
    let a = solve_deck(&deck, 3, Duration::from_millis(500));
    let b = solve_deck(&deck, 3, Duration::from_millis(500));
    assert!(matches!(
        a,
        SolveResult::Winnable | SolveResult::Unwinnable | SolveResult::Timeout
    ));
    if a != SolveResult::Timeout {
        assert_eq!(a, b);
    }
}

#[test]
fn hash_depends_only_on_contents() {
    let mut deck = [0u8; 52];
    for (i, slot) in deck.iter_mut().enumerate() {
        *slot = i as u8;
    }
    let s1 = initial_state(&deck, 1);
    let s2 = initial_state(&deck, 1);
    assert_eq!(hash_state(&s1), hash_state(&s2));
    let s3 = initial_state(&deck, 3);
    assert_ne!(hash_state(&s1), hash_state(&s3));
}

#[test]
fn normalize_is_idempotent_and_conserves() {
    let deck = auto_winning_deck();
    let mut s = initial_state(&deck, 1);
    s.normalize();
    let h1 = hash_state(&s);
    s.normalize();
    let h2 = hash_state(&s);
    assert_eq!(h1, h2);

    // Conservation: every card of the deal is present exactly once across
    // piles, stock, and foundations.
    let mut counts = [0u32; 52];
    for p in &s.piles {
        for &c in &p.cards {
            counts[c as usize] += 1;
        }
    }
    for &c in &s.k.stock {
        counts[c as usize] += 1;
    }
    for (su, &top) in s.fnd.iter().enumerate() {
        let mut r = 0i8;
        while r <= top {
            counts[su * 13 + r as usize] += 1;
            r += 1;
        }
    }
    assert!(counts.iter().all(|&n| n == 1));
}

#[test]
fn initial_state_layout() {
    let mut deck = [0u8; 52];
    for (i, slot) in deck.iter_mut().enumerate() {
        *slot = i as u8;
    }
    let s = initial_state(&deck, 3);
    assert_eq!(s.piles.len(), 7);
    let mut off = 0usize;
    for (i, p) in s.piles.iter().enumerate() {
        assert_eq!(p.cards.len(), i + 1);
        assert_eq!(p.up_from, i);
        for (t, &c) in p.cards.iter().enumerate() {
            assert_eq!(c, deck[off + t]);
        }
        off += i + 1;
    }
    assert_eq!(s.k.stock, deck[28..].to_vec());
    assert_eq!(s.k.draw, 3);
    assert_eq!(s.k.phase, 2);
    assert_eq!(s.fnd, vec![-1i8; 4]);
}

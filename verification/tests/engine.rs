use klondike::engine::{
    can_place_on_foundation, can_place_on_tableau, create_standard_deck, is_valid_tableau_run,
    rank_value, shuffle_deck, Card, CardColor, DrawMode, GameState, Rank, StockAction, Suit,
};

fn fresh_deal(seed: u64, mode: DrawMode) -> GameState {
    let mut gs = GameState::new();
    gs.draw_mode = mode;
    gs.rng_seed = seed;
    gs.deal_again().expect("deal");
    gs
}

#[test]
fn suit_rows_and_colors() {
    assert_eq!(Suit::Spades.row(), 0);
    assert_eq!(Suit::Hearts.row(), 1);
    assert_eq!(Suit::Diamonds.row(), 2);
    assert_eq!(Suit::Clubs.row(), 3);
    assert_eq!(Suit::Hearts.color(), CardColor::Red);
    assert_eq!(Suit::Diamonds.color(), CardColor::Red);
    assert_eq!(Suit::Spades.color(), CardColor::Black);
    assert_eq!(Suit::Clubs.color(), CardColor::Black);
}

#[test]
fn rank_columns_and_values() {
    assert_eq!(Rank::Ace.column(), 0);
    assert_eq!(Rank::King.column(), 12);
    assert_eq!(rank_value(Rank::Ace), 1);
    assert_eq!(rank_value(Rank::Ten), 10);
    assert_eq!(rank_value(Rank::King), 13);
}

#[test]
fn card_new_sprite_index() {
    let c = Card::new(Suit::Diamonds, Rank::Five);
    assert_eq!(c.sprite_index, 2 * 13 + 4);
    assert!(!c.face_up);
    let d = Card::new(Suit::Spades, Rank::Ace);
    assert_eq!(d.sprite_index, 0);
}

#[test]
fn standard_deck_is_distinct_and_shuffle_permutes() {
    let deck = create_standard_deck();
    assert_eq!(deck.len(), 52);
    let mut seen = [false; 52];
    for c in &deck {
        assert!(!seen[c.sprite_index as usize]);
        seen[c.sprite_index as usize] = true;
    }
    let mut shuffled = deck.clone();
    shuffle_deck(&mut shuffled, 42);
    let mut seen2 = [false; 52];
    for c in &shuffled {
        assert!(!seen2[c.sprite_index as usize]);
        seen2[c.sprite_index as usize] = true;
    }
    // Deterministic per seed.
    let mut again = create_standard_deck();
    shuffle_deck(&mut again, 42);
    for (a, b) in shuffled.iter().zip(again.iter()) {
        assert_eq!(a.sprite_index, b.sprite_index);
    }
}

#[test]
fn deal_layout_and_redeal_determinism() {
    let gs = fresh_deal(7, DrawMode::DrawOne);
    assert_eq!(gs.stock.cards.len(), 24);
    assert_eq!(gs.waste.cards.len(), 0);
    for (i, t) in gs.tableaus.iter().enumerate() {
        assert_eq!(t.cards.len(), i + 1);
        for (k, c) in t.cards.iter().enumerate() {
            assert_eq!(c.face_up, k == i);
        }
    }
    for f in &gs.foundations {
        assert!(f.cards.is_empty());
    }
    let gs2 = fresh_deal(7, DrawMode::DrawOne);
    for (a, b) in gs.tableaus.iter().zip(gs2.tableaus.iter()) {
        for (x, y) in a.cards.iter().zip(b.cards.iter()) {
            assert_eq!(x.sprite_index, y.sprite_index);
        }
    }
}

#[test]
fn stock_click_draws_and_recycles() {
    let mut gs = fresh_deal(3, DrawMode::DrawOne);
    assert_eq!(gs.stock_click(), StockAction::Drawn(1));
    assert_eq!(gs.waste_count(), 1);
    assert!(gs.waste_top().unwrap().face_up);
    assert_eq!(gs.stock_count(), 23);

    let mut d3 = fresh_deal(3, DrawMode::DrawThree);
    assert_eq!(d3.stock_click(), StockAction::Drawn(3));
    assert_eq!(d3.waste_count(), 3);

    // Exhaust the stock, then a click recycles the waste.
    let mut clicks = 0;
    while gs.stock_count() > 0 {
        gs.stock_click();
        clicks += 1;
        assert!(clicks < 100);
    }
    let waste = gs.waste_count();
    assert_eq!(gs.stock_click(), StockAction::Recycled(waste));
    assert_eq!(gs.waste_count(), 0);
    assert_eq!(gs.stock_count(), waste);
}

#[test]
fn empty_game_stock_click_is_noop() {
    let mut gs = GameState::new();
    assert_eq!(gs.stock_click(), StockAction::NoOp);
}

#[test]
fn place_and_move_to_foundation() {
    let mut gs = GameState::new();
    let ace = Card {
        face_up: true,
        ..Card::new(Suit::Hearts, Rank::Ace)
    };
    let two = Card {
        face_up: true,
        ..Card::new(Suit::Hearts, Rank::Two)
    };
    assert!(gs.can_accept_foundation(0, ace));
    assert!(!gs.can_accept_foundation(0, two));
    assert!(gs.place_on_foundation(0, ace));
    assert!(gs.can_accept_foundation(0, two));
    assert!(!gs.can_accept_foundation(1, two));
    gs.waste.cards.push(two);
    assert!(gs.move_waste_to_any_foundation());
    assert_eq!(gs.foundations[0].cards.len(), 2);
    assert_eq!(gs.waste_count(), 0);
    assert_eq!(gs.moves, 2);
    assert_eq!(gs.score, 20);
}

#[test]
fn tableau_run_rules() {
    let k_spades = Card {
        face_up: true,
        ..Card::new(Suit::Spades, Rank::King)
    };
    let q_hearts = Card {
        face_up: true,
        ..Card::new(Suit::Hearts, Rank::Queen)
    };
    let j_clubs = Card {
        face_up: true,
        ..Card::new(Suit::Clubs, Rank::Jack)
    };
    assert!(is_valid_tableau_run(&[k_spades, q_hearts, j_clubs]));
    assert!(!is_valid_tableau_run(&[k_spades, j_clubs]));
    assert!(!is_valid_tableau_run(&[]));
    assert!(can_place_on_tableau(k_spades, None));
    assert!(!can_place_on_tableau(q_hearts, None));
    assert!(can_place_on_tableau(q_hearts, Some(k_spades)));
    assert!(!can_place_on_tableau(j_clubs, Some(k_spades)));
    assert!(can_place_on_foundation(
        Card::new(Suit::Clubs, Rank::Ace),
        None
    ));
    assert!(!can_place_on_foundation(
        Card::new(Suit::Clubs, Rank::Two),
        None
    ));
}

#[test]
fn extract_place_and_cancel_stack() {
    let mut gs = GameState::new();
    let k = Card {
        face_up: true,
        ..Card::new(Suit::Spades, Rank::King)
    };
    let q = Card {
        face_up: true,
        ..Card::new(Suit::Hearts, Rank::Queen)
    };
    gs.tableaus[0].cards.push(k);
    gs.tableaus[0].cards.push(q);
    // Not a run if it starts below a face-down card; here the full run works.
    let stack = gs.extract_tableau_stack(0, 0).expect("run");
    assert_eq!(stack.len(), 2);
    assert_eq!(gs.tableau_len(0), 0);
    assert!(gs.can_accept_tableau_stack(1, &stack));
    assert!(gs.place_tableau_stack(1, stack));
    assert_eq!(gs.tableau_len(1), 2);

    let single = gs.extract_tableau_stack(1, 1).expect("single");
    assert!(!gs.can_accept_tableau_stack(3, &single));
    gs.cancel_tableau_stack(1, single);
    assert_eq!(gs.tableau_len(1), 2);
}

#[test]
fn flip_and_reveal_top() {
    let mut gs = GameState::new();
    let hidden = Card::new(Suit::Clubs, Rank::Seven);
    gs.tableaus[2].cards.push(hidden);
    assert!(gs.top_tableau_face_down(2));
    assert!(gs.flip_tableau_top(2));
    assert!(!gs.top_tableau_face_down(2));
    assert!(!gs.flip_tableau_top(2));
    assert_eq!(gs.score, 5);
    assert_eq!(gs.moves, 1);
}

#[test]
fn force_complete_sorts_everything_out() {
    let mut gs = fresh_deal(11, DrawMode::DrawOne);
    assert!(!gs.is_won());
    assert!(gs.force_complete_foundations());
    assert!(gs.is_won());
    assert_eq!(gs.stock_count(), 0);
    assert_eq!(gs.waste_count(), 0);
    for t in 0..7 {
        assert_eq!(gs.tableau_len(t), 0);
    }
    for f in &gs.foundations {
        assert_eq!(f.cards.len(), 13);
        for (k, c) in f.cards.iter().enumerate() {
            assert!(c.face_up);
            assert_eq!(c.suit, f.cards[0].suit);
            assert_eq!(rank_value(c.rank) as usize, k + 1);
        }
    }
    // Already won: a second call reports false.
    assert!(!gs.force_complete_foundations());
}

#[test]
fn force_complete_keeps_cards_and_existing_suits() {
    let mut gs = GameState::new();
    let ace_h = Card {
        face_up: true,
        ..Card::new(Suit::Hearts, Rank::Ace)
    };
    let two_h = Card {
        face_up: true,
        ..Card::new(Suit::Hearts, Rank::Two)
    };
    gs.foundations[2].cards.push(ace_h);
    gs.foundations[2].cards.push(two_h);
    gs.tableaus[0].cards.push(Card::new(Suit::Hearts, Rank::Three));
    gs.tableaus[1].cards.push(Card::new(Suit::Spades, Rank::Ace));
    gs.stock.cards.push(Card::new(Suit::Clubs, Rank::Ace));

    assert!(gs.force_complete_foundations());

    // Nothing lost, nothing invented: five cards total, each still present.
    let total: usize = gs.foundations.iter().map(|f| f.cards.len()).sum();
    assert_eq!(total, 5);
    // The foundation that already showed hearts keeps them, in order.
    assert_eq!(gs.foundations[2].cards.len(), 3);
    assert!(gs.foundations[2].cards.iter().all(|c| c.suit == Suit::Hearts));
    for (k, c) in gs.foundations[2].cards.iter().enumerate() {
        assert_eq!(rank_value(c.rank) as usize, k + 1);
        assert!(c.face_up);
    }
    // moves and score reflect the three newly promoted cards.
    assert_eq!(gs.moves, 3);
    assert_eq!(gs.score, 30);
}

#[test]
fn deal_new_game_varies_and_is_solvable_checks() {
    let mut gs = GameState::new();
    assert!(!gs.is_solvable());
    gs.deal_new_game(DrawMode::DrawOne).expect("deal");
    assert_ne!(gs.rng_seed, 0);
    assert_eq!(gs.stock.cards.len(), 24);
}

#[test]
fn deal_new_solvable_zero_attempts_fails() {
    let mut gs = GameState::new();
    assert!(gs.deal_new_solvable(DrawMode::DrawOne, 0).is_err());
}

#[test]
fn draw_three_takes_what_is_left() {
    let mut gs = fresh_deal(9, DrawMode::DrawThree);
    gs.stock.cards.truncate(2);
    assert_eq!(gs.stock_click(), StockAction::Drawn(2));
    assert_eq!(gs.stock_count(), 0);
    assert_eq!(gs.waste_count(), 2);
}

#[test]
fn tableau_queries() {
    let gs = fresh_deal(5, DrawMode::DrawOne);
    assert_eq!(gs.tableau_len(6), 7);
    assert_eq!(gs.tableau_len(9), 0);
    assert!(gs.tableau_card(0, 0).is_some());
    assert!(gs.tableau_card(0, 1).is_none());
    assert_eq!(gs.tableau_column(3).unwrap().len(), 4);
    assert!(gs.tableau_column(7).is_none());
}

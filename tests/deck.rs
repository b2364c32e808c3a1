use poker::parse::{card_of, PokerError};
use poker::poker::poker_to_hashmap;
use poker::render::{card_label, display_order};
use poker::Poker;

#[test]
fn test_full() {
    let deck = Poker::full();
    for c in 1..=13 {
        assert_eq!(deck.count_card(c), 4);
    }
    assert_eq!(deck.count_card(14), 1);
    assert_eq!(deck.count_card(15), 1);
}

#[test]
fn test_insert() {
    let mut hand = Poker::new();
    for i in 1..=4 {
        assert_eq!(hand.insert(6), true);
        assert_eq!(hand.count_card(6), i);
    }
    assert_eq!(hand.insert(6), false);
    assert_eq!(hand.count_card(6), 4);
    assert_eq!(hand.insert(15), true);
    assert_eq!(hand.count_card(15), 1);
}

#[test]
fn test_remove() {
    let mut deck = Poker::full();
    for i in (0..=3).rev() {
        assert_eq!(deck.remove(6), true);
        assert_eq!(deck.count_card(6), i);
    }
    assert_eq!(deck.remove(6), false);
    assert_eq!(deck.count_card(6), 0);
    assert_eq!(deck.remove(14), true);
    assert_eq!(deck.count_card(14), 0);
}

#[test]
fn test_remove_hand() {
    let mut deck = Poker::full();
    assert_eq!(deck.remove_hand(&"KKKAAA00JJ".parse().unwrap()), true);
    assert_eq!(deck.count_card(13), 1);
    assert_eq!(deck.count_card(1), 1);
    assert_eq!(deck.count_card(10), 2);
    assert_eq!(deck.count_card(11), 2);
    assert_eq!(deck.remove_hand(&"KKKAAA00JJ".parse().unwrap()), false);
    assert_eq!(deck.count_card(13), 1);
    assert_eq!(deck.count_card(1), 1);
    assert_eq!(deck.count_card(10), 2);
    assert_eq!(deck.count_card(11), 2);
}

#[test]
fn every_rank_inserts_exactly_four_times() {
    for c in 1..=13u8 {
        let mut hand = Poker::new();
        for i in 1..=4u32 {
            assert!(hand.insert(c));
            assert_eq!(hand.count_card(c), i);
        }
        assert!(!hand.insert(c));
        assert_eq!(hand.count_card(c), 4);
        for d in 1..=15u8 {
            if d != c {
                assert_eq!(hand.count_card(d), 0);
            }
        }
    }
}

#[test]
fn every_joker_inserts_once() {
    for c in 14..=15u8 {
        let mut hand = Poker::new();
        assert!(hand.insert(c));
        assert_eq!(hand.count_card(c), 1);
        assert!(!hand.insert(c));
        assert_eq!(hand.count_card(c), 1);
        assert_eq!(hand.count_card(29 - c), 0);
    }
}

#[test]
fn every_rank_removes_down_to_zero() {
    for c in 1..=13u8 {
        let mut deck = Poker::full();
        for i in (0..=3u32).rev() {
            assert!(deck.remove(c));
            assert_eq!(deck.count_card(c), i);
        }
        assert!(!deck.remove(c));
        assert_eq!(deck.count_card(c), 0);
        for d in 1..=13u8 {
            if d != c {
                assert_eq!(deck.count_card(d), 4);
            }
        }
        assert_eq!(deck.count_card(14), 1);
        assert_eq!(deck.count_card(15), 1);
    }
}

#[test]
fn joker_remove_then_insert_restores() {
    let mut deck = Poker::full();
    assert!(deck.remove(15));
    assert!(!deck.remove(15));
    assert_eq!(deck.count_card(15), 0);
    assert_eq!(deck.count_card(14), 1);
    assert!(deck.insert(15));
    assert_eq!(deck.count_card(15), 1);
}

#[test]
fn new_counter_is_empty() {
    let hand = Poker::new();
    for c in 1..=15u8 {
        assert_eq!(hand.count_card(c), 0);
    }
}

#[test]
fn parse_then_render_matches_text() {
    let hand = Poker::from_str("KKKAAA00JJ").unwrap();
    assert_eq!(
        hand.display_counts(),
        vec![0, 0, 0, 3, 3, 0, 2, 2, 0, 0, 0, 0, 0, 0, 0]
    );
    let hand = Poker::from_str("rb23456789").unwrap();
    assert_eq!(
        hand.display_counts(),
        vec![1, 1, 1, 0, 0, 0, 0, 0, 1, 1, 1, 1, 1, 1, 1]
    );
}

#[test]
fn full_deck_renders_all_counts() {
    assert_eq!(
        Poker::full().display_counts(),
        vec![1, 1, 4, 4, 4, 4, 4, 4, 4, 4, 4, 4, 4, 4, 4]
    );
}

#[test]
fn parse_is_case_insensitive() {
    let hand = Poker::from_str("aJqKbR1").unwrap();
    assert_eq!(hand.count_card(1), 2);
    assert_eq!(hand.count_card(11), 1);
    assert_eq!(hand.count_card(12), 1);
    assert_eq!(hand.count_card(13), 1);
    assert_eq!(hand.count_card(14), 1);
    assert_eq!(hand.count_card(15), 1);
}

#[test]
fn parse_five_kings_fails() {
    assert_eq!(Poker::from_str("KKKKK").unwrap_err(), PokerError::ParsePokerError);
    assert!(Poker::from_str("KKKK").is_ok());
}

#[test]
fn parse_unknown_character_fails() {
    assert_eq!(Poker::from_str("X").unwrap_err(), PokerError::ParsePokerError);
    assert!(Poker::from_str("K K").is_err());
    assert!(Poker::from_str("K\u{e9}").is_err());
}

#[test]
fn parse_two_red_jokers_fails() {
    assert!(Poker::from_str("RR").is_err());
    assert!(Poker::from_str("rR").is_err());
    assert!(Poker::from_str("BR").is_ok());
}

#[test]
fn parse_empty_gives_empty_counter() {
    let hand = Poker::from_str("").unwrap();
    for c in 1..=15u8 {
        assert_eq!(hand.count_card(c), 0);
    }
}

#[test]
fn parse_through_from_str_trait() {
    let hand: Poker = "0Q".parse().unwrap();
    assert_eq!(hand.count_card(10), 1);
    assert_eq!(hand.count_card(12), 1);
    assert!("Z".parse::<Poker>().is_err());
}

#[test]
fn remove_hand_failure_leaves_every_count() {
    let mut deck = Poker::from_str("AA2KR").unwrap();
    let before = deck.display_counts();
    assert!(!deck.remove_hand(&Poker::from_str("A2KB").unwrap()));
    assert_eq!(deck.display_counts(), before);
    assert!(!deck.remove_hand(&Poker::from_str("AAA").unwrap()));
    assert_eq!(deck.display_counts(), before);
    assert!(deck.remove_hand(&Poker::from_str("A2KR").unwrap()));
    assert_eq!(deck.count_card(1), 1);
    assert_eq!(deck.count_card(2), 0);
    assert_eq!(deck.count_card(13), 0);
    assert_eq!(deck.count_card(15), 0);
}

#[test]
fn remove_empty_hand_changes_nothing() {
    let mut deck = Poker::full();
    assert!(deck.remove_hand(&Poker::new()));
    assert_eq!(deck.display_counts(), Poker::full().display_counts());
}

#[test]
fn remove_whole_deck_leaves_empty() {
    let mut deck = Poker::full();
    assert!(deck.remove_hand(&Poker::full()));
    for c in 1..=15u8 {
        assert_eq!(deck.count_card(c), 0);
    }
    assert!(!deck.remove_hand(&Poker::from_str("3").unwrap()));
}

#[test]
fn counts_stay_within_caps() {
    let mut deck = Poker::new();
    for round in 0..7u8 {
        for c in 1..=15u8 {
            deck.insert(c);
            if (c + round) % 3 == 0 {
                deck.remove(c);
            }
        }
        for c in 1..=15u8 {
            let limit = if c <= 13 { 4 } else { 1 };
            assert!(deck.count_card(c) <= limit);
        }
    }
}

#[test]
fn enumeration_lists_present_cards_in_order() {
    let hand = Poker::from_str("KKR0A").unwrap();
    assert_eq!(poker_to_hashmap(&hand), vec![(1, 1), (10, 1), (13, 2), (15, 1)]);
    assert_eq!(poker_to_hashmap(&Poker::new()), vec![]);
}

#[test]
fn table_order_and_labels() {
    assert_eq!(
        display_order(),
        vec![15, 14, 2, 1, 13, 12, 11, 10, 9, 8, 7, 6, 5, 4, 3]
    );
    let header: String = display_order().into_iter().map(card_label).collect();
    assert_eq!(header, "RB2AKQJ09876543");
    for c in 1..=15u8 {
        assert_eq!(card_of(card_label(c)), c);
    }
}

#[test]
fn card_of_reads_each_glyph() {
    assert_eq!(card_of('7'), 7);
    assert_eq!(card_of('0'), 10);
    assert_eq!(card_of('a'), 1);
    assert_eq!(card_of('b'), 14);
    assert_eq!(card_of('x'), 0);
    assert_eq!(card_of('1'), 1);
}

#[test]
fn error_description() {
    assert_eq!(PokerError::ParsePokerError.description(), "ParsePokerError");
}

use std::cmp::Ordering;

use poker_hand::card::{Card, Rank, Suit};

use poker_hand::hand::Hand;

#[test]
fn test_hand_strength_straight_flush_vs_flush() {
    let hand1 = Hand::new(&[
        Card(Rank::Two, Suit::Spade),
        Card(Rank::Three, Suit::Spade),
        Card(Rank::Four, Suit::Spade),
        Card(Rank::Five, Suit::Spade),
        Card(Rank::Six, Suit::Spade),
    ])
    .unwrap();

    let hand2 = Hand::new(&[
        Card(Rank::Two, Suit::Spade),
        Card(Rank::Three, Suit::Spade),
        Card(Rank::Four, Suit::Spade),
        Card(Rank::Five, Suit::Spade),
        Card(Rank::Seven, Suit::Spade),
    ])
    .unwrap();

    assert!(hand1 > hand2);
}

#[test]
fn test_hand_ace_low_straight_vs_ace_high_straight() {
    let hand1 = Hand::new(&[
        Card(Rank::Two, Suit::Spade),
        Card(Rank::Three, Suit::Heart),
        Card(Rank::Four, Suit::Diamond),
        Card(Rank::Five, Suit::Club),
        Card(Rank::Ace, Suit::Spade),
    ])
    .unwrap();

    let hand2 = Hand::new(&[
        Card(Rank::Ten, Suit::Spade),
        Card(Rank::Jack, Suit::Heart),
        Card(Rank::Queen, Suit::Diamond),
        Card(Rank::King, Suit::Club),
        Card(Rank::Ace, Suit::Spade),
    ])
    .unwrap();

    assert!(hand1 < hand2);
}

#[test]
fn test_hand_ace_low_straight_vs_standard_straight() {
    let hand1 = Hand::new(&[
        Card(Rank::Ace, Suit::Spade),
        Card(Rank::Two, Suit::Heart),
        Card(Rank::Three, Suit::Diamond),
        Card(Rank::Four, Suit::Club),
        Card(Rank::Five, Suit::Spade),
    ])
    .unwrap();

    let hand2 = Hand::new(&[
        Card(Rank::Two, Suit::Spade),
        Card(Rank::Three, Suit::Heart),
        Card(Rank::Four, Suit::Diamond),
        Card(Rank::Five, Suit::Club),
        Card(Rank::Six, Suit::Spade),
    ])
    .unwrap();

    assert!(hand1 < hand2);
}

#[test]
fn test_pair_beats_high_card() {
    let pair = Hand::new(&[
        Card(Rank::Two, Suit::Spade),
        Card(Rank::Two, Suit::Heart),
        Card(Rank::Three, Suit::Diamond),
        Card(Rank::Four, Suit::Club),
        Card(Rank::Five, Suit::Spade),
    ])
    .unwrap();

    let high_card = Hand::new(&[
        Card(Rank::Nine, Suit::Spade),
        Card(Rank::Jack, Suit::Heart),
        Card(Rank::Queen, Suit::Diamond),
        Card(Rank::King, Suit::Club),
        Card(Rank::Ace, Suit::Spade),
    ])
    .unwrap();

    assert!(pair > high_card);
}

#[test]
fn test_same_category_higher_top_card_wins() {
    let lower = Hand::new(&[
        Card(Rank::Two, Suit::Spade),
        Card(Rank::Three, Suit::Heart),
        Card(Rank::Four, Suit::Diamond),
        Card(Rank::Five, Suit::Club),
        Card(Rank::Seven, Suit::Spade),
    ])
    .unwrap();

    let higher = Hand::new(&[
        Card(Rank::Two, Suit::Heart),
        Card(Rank::Three, Suit::Diamond),
        Card(Rank::Four, Suit::Club),
        Card(Rank::Five, Suit::Spade),
        Card(Rank::Eight, Suit::Heart),
    ])
    .unwrap();

    assert!(lower < higher);
}

#[test]
fn test_equal_rank_sequences_compare_equal() {
    let hand1 = Hand::new(&[
        Card(Rank::Two, Suit::Spade),
        Card(Rank::Three, Suit::Heart),
        Card(Rank::Four, Suit::Diamond),
        Card(Rank::Five, Suit::Club),
        Card(Rank::Seven, Suit::Spade),
    ])
    .unwrap();

    let hand2 = Hand::new(&[
        Card(Rank::Seven, Suit::Heart),
        Card(Rank::Five, Suit::Spade),
        Card(Rank::Four, Suit::Heart),
        Card(Rank::Three, Suit::Club),
        Card(Rank::Two, Suit::Diamond),
    ])
    .unwrap();

    assert_eq!(hand1.partial_cmp(&hand2), Some(Ordering::Equal));
}

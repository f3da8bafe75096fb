use poker_hand::card::{Card, Rank, Suit};
use poker_hand::hand::{Hand, HandError};

#[test]
fn test_new_accepts_exactly_five_cards() {
    let cards = [
        Card(Rank::Two, Suit::Spade),
        Card(Rank::Three, Suit::Heart),
        Card(Rank::Four, Suit::Diamond),
        Card(Rank::Five, Suit::Club),
        Card(Rank::Seven, Suit::Spade),
    ];
    assert!(Hand::new(&cards).is_ok());
}

#[test]
fn test_new_rejects_empty_input() {
    let cards: [Card; 0] = [];
    assert_eq!(Hand::new(&cards), Err(HandError::InvalidHandSize));
}

#[test]
fn test_new_rejects_four_cards() {
    let cards = [
        Card(Rank::Two, Suit::Spade),
        Card(Rank::Three, Suit::Heart),
        Card(Rank::Four, Suit::Diamond),
        Card(Rank::Five, Suit::Club),
    ];
    assert_eq!(Hand::new(&cards), Err(HandError::InvalidHandSize));
}

#[test]
fn test_new_rejects_six_cards() {
    let cards = [
        Card(Rank::Two, Suit::Spade),
        Card(Rank::Three, Suit::Heart),
        Card(Rank::Four, Suit::Diamond),
        Card(Rank::Five, Suit::Club),
        Card(Rank::Seven, Suit::Spade),
        Card(Rank::Eight, Suit::Heart),
    ];
    assert_eq!(Hand::new(&cards), Err(HandError::InvalidHandSize));
}

#[test]
fn test_new_does_not_reject_duplicate_cards() {
    let cards = [
        Card(Rank::Nine, Suit::Heart),
        Card(Rank::Nine, Suit::Heart),
        Card(Rank::Two, Suit::Spade),
        Card(Rank::Three, Suit::Club),
        Card(Rank::Four, Suit::Diamond),
    ];
    assert!(Hand::new(&cards).is_ok());
}

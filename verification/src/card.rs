use vstd::prelude::*;

verus! {

/// One of the 13 card face values, in strength order: Two is the lowest,
/// Ace the highest. The derived order follows the declaration order; verified
/// code compares ranks through their codes instead.
#[derive(Clone, Copy, PartialEq, Eq, PartialOrd, Ord, Structural, Debug)]
pub enum Rank {
    Two,
    Three,
    Four,
    Five,
    Six,
    Seven,
    Eight,
    Nine,
    Ten,
    Jack,
    Queen,
    King,
    Ace,
}

/// The integer code of a rank: Two maps to 0, Ace to 12, and ranks that are
/// adjacent in strength have adjacent codes, so a straight is a run of five
/// consecutive codes.
pub open spec fn rank_code(r: Rank) -> int {
    match r {
        Rank::Two => 0,
        Rank::Three => 1,
        Rank::Four => 2,
        Rank::Five => 3,
        Rank::Six => 4,
        Rank::Seven => 5,
        Rank::Eight => 6,
        Rank::Nine => 7,
        Rank::Ten => 8,
        Rank::Jack => 9,
        Rank::Queen => 10,
        Rank::King => 11,
        Rank::Ace => 12,
    }
}

impl Rank {
    /// The rank's code as a machine integer.
    pub fn code(&self) -> (c: u8)
        ensures
            c as int == rank_code(*self),
            c <= 12,
    {
        match self {
            Rank::Two => 0,
            Rank::Three => 1,
            Rank::Four => 2,
            Rank::Five => 3,
            Rank::Six => 4,
            Rank::Seven => 5,
            Rank::Eight => 6,
            Rank::Nine => 7,
            Rank::Ten => 8,
            Rank::Jack => 9,
            Rank::Queen => 10,
            Rank::King => 11,
            Rank::Ace => 12,
        }
    }
}

/// One of the 4 card symbols. Suits carry equality only; no suit outranks
/// another.
#[derive(Clone, Copy, PartialEq, Eq, Structural, Debug)]
pub enum Suit {
    Spade,
    Heart,
    Diamond,
    Club,
}

/// A playing card: a rank and a suit. Cards are ordered by rank alone, so two
/// cards of equal rank but different suits compare as equal.
#[derive(Clone, Copy, PartialEq, Eq, Structural, Debug)]
pub struct Card(pub Rank, pub Suit);

impl PartialOrd for Card {
    fn partial_cmp(&self, other: &Card) -> (r: Option<core::cmp::Ordering>) {
        let a = self.0.code();
        let b = other.0.code();
        if a < b {
            Some(core::cmp::Ordering::Less)
        } else if a == b {
            Some(core::cmp::Ordering::Equal)
        } else {
            Some(core::cmp::Ordering::Greater)
        }
    }
}

impl vstd::std_specs::cmp::PartialOrdSpecImpl for Card {
    open spec fn obeys_partial_cmp_spec() -> bool {
        true
    }

    open spec fn partial_cmp_spec(&self, other: &Card) -> Option<core::cmp::Ordering> {
        if rank_code(self.0) < rank_code(other.0) {
            Some(core::cmp::Ordering::Less)
        } else if rank_code(self.0) == rank_code(other.0) {
            Some(core::cmp::Ordering::Equal)
        } else {
            Some(core::cmp::Ordering::Greater)
        }
    }
}

} // verus!

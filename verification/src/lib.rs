pub mod card;
pub mod hand;

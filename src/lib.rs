pub mod game;
pub mod state;
pub mod payout;
pub mod laws;
pub mod card_abstraction;
pub mod action_abstraction;

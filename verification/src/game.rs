//! The first rule set of the game, kept for the rooms that still use it:
//! boards named by string ids, scales found automatically for each card.
pub mod action;
pub mod board;
pub mod card_dealer;
pub mod result;
pub mod scale;
pub mod scale_manager;
pub mod session;

pub mod state;

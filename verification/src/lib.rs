//! Rules and state of a two-player card game played with a double deck:
//! players empty their personal pile and hand onto shared ascending scales.

pub mod card;
pub mod ids;
pub mod actions;
pub mod scale;
pub mod scale_manager;
pub mod deck;
pub mod outside;
pub mod dealer;
pub mod board;
pub mod state_spec;
pub mod state;
pub mod play_result;
pub mod protocol;
pub mod full_state;
pub mod room;
pub mod room_events;
pub mod lobby;
pub mod over;
pub mod playing;
pub mod game_room;
pub mod game_laws;
pub mod game;
pub mod invite;
pub mod users;
pub mod auth;

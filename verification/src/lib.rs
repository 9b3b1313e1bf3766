//! Authoritative engine for a two-player, turn-synchronous tile-placement
//! game. Rooms gather users, two of whom play; a match deals hands from
//! per-player decks, validates moves, resolves both moves of a turn
//! simultaneously and keeps score.

pub mod byml;
pub mod card;
pub mod card_import;
pub mod close_code;
pub mod connection;
pub mod counting;
pub mod lang;
pub mod map;
pub mod maps_import;
pub mod matrix;
pub mod messages;
pub mod move_validator;
pub mod names;
pub mod position;
mod rng;
pub mod room_store;
pub mod squares;
pub mod state;
pub mod strutil;
pub mod team;

//! Kascreech: the game engine of a real-time multiplayer quiz server.
//!
//! The library holds the rules of the game: how a quiz fetched from Kahoot
//! becomes a playable game, how players join, how guesses are scored, how the
//! leaderboard is ranked, which commands a host may send in which phase, and
//! how the quiz catalogue is listed and searched. Networking, storage and
//! JSON encoding live in the application around it.

mod arith;
pub mod api;
pub mod assoc;
pub mod ranking;
pub mod text;
pub mod types;
pub mod command;
pub mod database;
pub mod err;
pub mod game;
pub mod host;
pub mod hosting;
pub mod join;
pub mod not_once_cell;
pub mod player;
pub mod points;
pub mod quiz;
pub mod request;
mod random;
pub mod server;
pub mod server_types;

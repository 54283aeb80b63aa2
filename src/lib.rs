//! Game-state core of a multiplayer party game: player identities, the player
//! registry with its feeding simulation, the crown, the elimination round and
//! the per-audience broadcast hubs.

pub mod api;
pub mod crown;
pub mod events;
pub mod game;
pub mod hub;
pub mod ids;
pub mod names;
pub mod nose_goes;
pub mod registry;

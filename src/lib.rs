//! Coordinator for a tournament played over a fixed pool of game-server
//! arenas: it places pending pairings in free arenas, routes messages between
//! connected servers and one admin, and tells its host which calls to make to
//! the bracket service.
pub mod arena;
pub mod bracket;
pub mod coordinator;
pub mod protocol;

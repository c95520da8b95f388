//! Core of a real-time two-player combat game server.
//!
//! The verified library holds the authoritative per-match state machine
//! ([`game::Game`]), the session registry ([`lobby::Lobby`]), the command
//! parser ([`messages::Msg`]) and the snapshot serializer. Connection
//! identifiers are carried as their 128-bit values; positions are carried in
//! half-units, so that every reachable coordinate (spawns at 20 and 300,
//! steps of 40, a body radius of 2.5) is represented exactly as an integer.
//! Transport, delivery and the duplex-connection handshake live outside the
//! library: every mutating operation returns the list of messages to deliver.

pub mod assoc;
pub mod errors;
pub mod game;
pub mod lobby;
pub mod messages;
pub mod snapshot;
pub mod textfmt;

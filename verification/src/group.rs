//! A group of targets probed over one shared socket.
//!
//! The group decides when targets open, send, drain and close. The caller owns
//! the socket and the protocol sessions: it carries out what the group asks
//! for and hands in what it observed.
pub mod cadence_laws;
pub mod drain;
pub mod laws;
pub mod model;
pub mod open_laws;
pub mod opening;
pub mod pacing;
pub mod registry;
pub mod roster_laws;
pub mod schedule;
pub mod session_laws;
pub mod target;
pub mod transmit;
pub mod validate;

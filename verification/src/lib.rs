//! Client-side session management for isochronous round-trip testing.
//!
//! The crate holds the decisions of the client: which probes are pending and
//! when they expire, how targets are paced, planned, opened, drained and
//! closed, how outcomes are recorded, and how events reach subscribers.
//! Sockets, clocks and channels stay outside. They hand in plain values and
//! perform the actions that come back.
pub mod blocking;
pub mod cancellation;
pub mod config;
pub mod counting;
pub mod driver;
pub mod error;
pub mod error_queue;
pub mod event;
pub mod group;
pub mod history;
pub mod hub;
pub mod messages;
pub mod metadata;
pub mod model;
pub mod net;
pub mod probe;
pub mod receive;
pub mod ring;
pub mod runner;
pub mod target_id;
pub mod task;
pub mod text;
pub mod timing;

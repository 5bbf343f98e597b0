//! The managed driver of zero or more targets.
//!
//! The driver holds the authoritative state of every target and decides what
//! happens to it. The session objects themselves stay with the caller, which
//! asks what to poll, polls it, and hands in what it observed. What the driver
//! wants done in return is listed, in order, in an outbox.
pub mod apply;
pub mod construct;
pub mod deadline_laws;
pub mod drain_laws;
pub mod drive;
pub mod drive_view;
pub mod driver_laws;
pub mod laws;
pub mod lifecycle;
pub mod outcome_laws;
pub mod pacing;
pub mod plan;
pub mod plan_laws;
pub mod plan_view;
pub mod send;
pub mod send_laws;
pub mod session_laws;
pub mod state;
pub mod target;
pub mod timeouts;
pub mod turn;
pub mod update_laws;
pub mod view;

//! Work-claiming and scheduling core for a shared issue store.
//!
//! Many independent actors pull ready work items from one authoritative
//! store, claim them with a time-bounded lease, renew the lease by
//! heartbeat, and release it (or lose it to the sweeper) when done or
//! crashed.  The crate holds the logic of that coordination.
//!
//! Instants are unix timestamps in seconds (`i64`); durations are in
//! seconds unless a name says otherwise.  All operations work on an
//! in-memory [`store::Store`]; persistence, clocks and rendering to a
//! terminal live outside the crate.

pub mod acceptance;
pub mod claim;
pub mod error;
pub mod lease;
pub mod model;
pub mod ready;
pub mod resolver;
pub mod scenario;
pub mod store;
pub mod sweep;
pub mod text;

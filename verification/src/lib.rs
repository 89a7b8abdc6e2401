//! Session and event-log layer for a handle-based automation engine.
//!
//! The crate keeps the managed side of the engine's calling surface: the
//! byte layout of stored events, the per-device event log, the protocol
//! that sizes buffers for variable-length results, the state of one engine
//! session and the registry of live sessions.
//!
//! Everything here is verified but for a handful of functions that call
//! into code outside the crate and whose contracts are taken on trust:
//! the calls into the ordered store in [`store`], the JSON reader in
//! [`json`], the conversion of bytes to text in [`text`], and the
//! in-place access to a map entry in [`api`]. The engine itself is never
//! called from here: each operation that needs it takes the call as a
//! function and is verified for whatever that function returns. Nor is
//! the clock read here: reading it can fail in a way that no contract
//! could leave out, so the time of an event is handed in.

pub mod api;
pub mod buffer;
pub mod bytes;
pub mod config;
pub mod database;
pub mod json;
pub mod maa_sys;
pub mod order;
pub mod partition;
pub mod record;
pub mod store;
pub mod text;
pub mod types;

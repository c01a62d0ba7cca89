//! Verified core of a command-line client for a hosted search service.
//!
//! The crate covers the client's credential subsystem: extracting a one-shot
//! credential token out of the raw bytes of a browser's callback request,
//! driving the interactive login hand-off as a state machine, and maintaining
//! a persisted store of named credential profiles under its invariants
//! (unique names, exactly one selected entry).  Network listeners, prompts and
//! the on-disk persistence live outside this crate and call into it with
//! plain values.

pub mod api_key;
pub mod auth;
pub mod error;
pub mod extract;
pub mod profiles;
pub mod settings;
pub mod text;

//! Archival of a messaging account's conversation history.
//!
//! The crate renders rich-text message bodies into markup, plans the
//! per-message metadata lookups, routes live events to the owning account
//! session, and drives the backward walk over a chat's history.  All of the
//! decision logic is verified; talking to the messaging backend and to the
//! file system is left to a thin unverified shell around this library.

pub mod content;
pub mod enrich;
pub mod record;
pub mod registry;
pub mod sync;
pub mod render;
pub mod render_laws;

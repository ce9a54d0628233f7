//! A line-oriented chat relay: clients announce a display name and every
//! subsequent non-empty line is fanned out to all registered clients.
//!
//! This crate holds the stateful core — the client registry, the
//! per-connection session state machine, and the broadcast dispatcher's
//! per-event logic — with contracts over sequence-of-character models.
//! Listening, socket I/O and threads live outside the library.
use vstd::prelude::*;

pub mod clock;
pub mod dispatch;
pub mod message;
pub mod registry;
pub mod session;
pub mod text;

verus! {

/// The literal prompt a session writes before reading the display name.
pub fn handshake_prompt() -> (r: String)
    ensures
        r@ == "Enter username: "@,
{
    String::from_str("Enter username: ")
}

} // verus!

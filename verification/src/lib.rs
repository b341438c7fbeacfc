//! Credential-store reading, terminal sanitising and mailbox bookkeeping for
//! the UFO rover tools, with their behaviour stated as Verus contracts.
pub mod json;
pub mod text;
pub mod terminal;
pub mod auth;
pub mod mailbox;
pub mod beads;

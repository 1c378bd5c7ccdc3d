//! The TeamSpeak side of the daemon.

pub mod client;
pub mod daemon;
pub mod identities;
pub mod laws;
pub mod list_laws;
pub mod poke;
pub mod poke_laws;
pub mod stat_laws;
pub mod stats;
mod tick_steps;

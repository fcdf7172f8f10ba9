//! Span keeps the clipboards of trusted devices on one local network in step.

use vstd::prelude::*;

pub mod autostart;
pub mod clipboard;
pub mod command_laws;
pub mod commands;
pub mod crypto;
pub mod daemon;
pub mod delivery;
pub mod device;
pub mod discovery;
pub mod error;
pub mod hex;
pub mod network;
pub mod presence;
pub mod presence_laws;
pub mod reception;
pub mod registry;
pub mod registry_laws;
pub mod sighting_laws;
pub mod text;
pub mod transport;
pub mod trust_store;
pub mod trust_store_laws;
pub mod window;
pub mod window_laws;

verus! {

} // verus!

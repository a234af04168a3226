//! Verified binary parsing for the MeshCore companion-radio protocol.
//!
//! The library decodes the frames a MeshCore node sends over its serial,
//! TCP or BLE link: fixed-width little-endian integers, fixed-size byte
//! arrays, device name strings, and the structured payloads built from
//! them (contacts, messages, statistics, mesh packet headers, ...).
use vstd::prelude::*;

pub mod custom_vars;
pub mod error;
pub mod events;
pub mod hex;
pub mod packets;
pub mod parsing;
pub mod text;
pub mod wire;

verus! {

/// Fixed width of a channel name on the wire.
pub const CHANNEL_NAME_LEN: usize = 32;

/// Width of a channel secret on the wire.
pub const CHANNEL_SECRET_LEN: usize = 16;

} // verus!

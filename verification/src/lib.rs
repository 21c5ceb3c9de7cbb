//! LAN peer-discovery and file-transfer engine.
//!
//! Peers on one broadcast domain find each other through periodic UDP
//! announcements and move single files over direct TCP connections using a
//! length-prefixed frame. This crate holds the engine's verified core: the
//! peer registry, the announcement handling rules, the transfer frame codec,
//! and filename sanitization. The surrounding process (sockets, disk, timers)
//! drives these pieces from outside.

use vstd::prelude::*;

pub mod addr;
pub mod discovery;
pub mod frame;
pub mod registry;
pub mod sanitize;

verus! {

/// Fixed UDP port for discovery announcements; the same number is used as the
/// TCP port for file transfers (the two port spaces are independent).
pub const DISCOVERY_PORT: u16 = 5005;

/// How often the beacon announces this process's presence.
pub const BEACON_INTERVAL_MILLIS: u64 = 3_000;

/// How often the janitor sweeps the registry for stale peers.
pub const JANITOR_INTERVAL_MILLIS: u64 = 10_000;

/// How long a peer stays in the registry after its last announcement.
pub const PEER_TTL_MILLIS: u64 = 15_000;

} // verus!

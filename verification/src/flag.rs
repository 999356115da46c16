//! Peer-state flags, as held in the peer flag byte.

use vstd::prelude::*;

verus! {

/// Peer has the complete torrent (`left == 0`).
pub const SEEDING: u8 = 0x80;

/// Peer reported `event=completed` on this announce.
pub const COMPLETED: u8 = 0x40;

/// Peer reported `event=stopped` (is leaving the swarm).
pub const STOPPED: u8 = 0x20;

/// Peer was learned via cluster live-sync (reserved).
pub const FROM_SYNC: u8 = 0x10;

/// Peer is downloading (no bits set).
pub const LEECHING: u8 = 0x00;

/// Whether the flag byte says that the peer holds the complete torrent.
pub open spec fn seeding(flags: u8) -> bool {
    flags & SEEDING != 0
}

/// Whether the flag byte says that the peer has completed a download.
pub open spec fn completed(flags: u8) -> bool {
    flags & COMPLETED != 0
}

} // verus!

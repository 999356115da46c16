//! A BitTorrent tracker core: the torrent and peer store, the UDP and HTTP tracker protocols,
//! connection ids, abuse detection, counters and configuration.
//!
//! Everything here computes on plain values; sockets, clocks and files belong to the caller.

pub mod addr;
pub mod bencode;
pub mod bytemap;
pub mod chars;
pub mod config;
pub mod connid;
pub mod decimal;
pub mod flag;
pub mod http;
pub mod l7;
pub mod laws;
pub mod metrics;
pub mod nft;
pub mod peers;
pub mod service;
pub mod store;
pub mod text;
pub mod udp;
pub mod udp_handler;
pub mod version;
pub mod wire;

use vstd::prelude::*;

verus! {

/// Length of a BitTorrent info-hash or peer-id (SHA-1), in bytes.
pub const HASH_LEN: usize = 20;

/// A 20-byte torrent info-hash.
pub type InfoHash = [u8; HASH_LEN];

/// A 20-byte peer id.
pub type PeerId = [u8; HASH_LEN];

/// Announce `event`, as the tracker acts on it.
///
/// BEP-15 `started` (code 2) carries no special peer accounting, so it folds into
/// [`Event::Periodic`].
#[derive(Debug, Clone, Copy, PartialEq, Eq, Structural)]
pub enum Event {
    /// Periodic announce, `started`, or an unknown code.
    Periodic,
    /// `completed` (code 1): the peer just finished downloading.
    Completed,
    /// `stopped` (code 3): the peer is leaving.
    Stopped,
}

/// The event that a BEP-15 `event` field stands for.
pub open spec fn udp_event(code: u32) -> Event {
    if code == 1 {
        Event::Completed
    } else if code == 3 {
        Event::Stopped
    } else {
        Event::Periodic
    }
}

impl Event {
    /// Decode a BEP-15 UDP `event` field: `1` is [`Event::Completed`], `3` is
    /// [`Event::Stopped`], anything else (`0` none, `2` started, unknown) is [`Event::Periodic`].
    #[must_use]
    pub fn from_udp(code: u32) -> (r: Self)
        ensures
            r == udp_event(code),
    {
        match code {
            1 => Event::Completed,
            3 => Event::Stopped,
            _ => Event::Periodic,
        }
    }
}

} // verus!

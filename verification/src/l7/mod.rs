//! L7 behavioral abuse detection.
//!
//! Inline on every parsed request, this keeps bounded per-source state and raises a decaying
//! suspicion score from protocol-grounded signals:
//!
//! * **stateless violations**: a single packet that contradicts the protocol (trivial `key`, an
//!   `IP` field set from a public source, an unconnectable port, a seeder that never transferred,
//!   an absurd `num_want`);
//! * **identity churn**: BEP-15's `key` and BEP-20's `peer_id` identify one client and are meant
//!   to be stable, so churning them for one torrent means fabricated peers;
//! * **enumeration**: a genuine peer touches a bounded set of torrents and scrapes its own, so
//!   breadth across many info-hashes is harvesting;
//! * **connection-id mismatches** and **re-announce interval abuse**.
//!
//! A source whose score reaches the ban threshold is banned. The ban carries an **escalation
//! tier** that rises with repeat offences, which the runtime maps onto progressively longer-lived
//! nft sets.
//!
//! All times (`now`, [`Config::reannounce_min_interval`], [`Config::decay_interval`]) are in
//! **seconds**.

pub mod client;
pub mod detector;
pub mod history;
pub mod laws;

pub use detector::{Detector, SHARDS};

use vstd::prelude::*;

use crate::text;
use crate::{InfoHash, PeerId};

verus! {

/// A source address, v4-mapped for IPv4.
pub type Ip = [u8; 16];

/// peer_id prefixes of well-known BitTorrent clients (Azureus-style). A peer_id matching none of
/// these is a weak abuse signal.
pub const KNOWN_CLIENT_PREFIXES: [&'static str; 19] = [
    "-qB",
    "-TR",
    "-LT",
    "-lt",
    "-DE",
    "-UT",
    "-UM",
    "-AZ",
    "-BT",
    "-BL",
    "-TX",
    "-FD",
    "-D5",
    "-DE",
    "-KT",
    "-XL",
    "-WW",
    "M4-",
    "M5-",
];

/// Whether a peer id starts with the prefix of a well-known client.
pub open spec fn known_client(peer_id: Seq<u8>) -> bool {
    exists|i: int|
        0 <= i < KNOWN_CLIENT_PREFIXES@.len() && text::begins(
            peer_id,
            text::utf8((#[trigger] KNOWN_CLIENT_PREFIXES@[i])@),
        )
}

/// True if `peer_id` starts with a recognised BitTorrent client prefix.
#[must_use]
pub fn is_known_client(peer_id: &PeerId) -> (r: bool)
    ensures
        r == known_client(peer_id@),
{
    let prefixes = KNOWN_CLIENT_PREFIXES;
    let mut i: usize = 0;
    while i < prefixes.len()
        invariant
            i <= prefixes@.len(),
            prefixes == KNOWN_CLIENT_PREFIXES,
            forall|j: int|
                0 <= j < i ==> !text::begins(
                    peer_id@,
                    text::utf8((#[trigger] KNOWN_CLIENT_PREFIXES@[j])@),
                ),
        decreases prefixes@.len() - i,
    {
        if text::starts_with(peer_id, prefixes[i].as_bytes()) {
            assert(text::begins(peer_id@, text::utf8(KNOWN_CLIENT_PREFIXES@[i as int]@)));
            return true;
        }
        i = i + 1;
    }
    false
}

/// The announce fields the detector inspects, decoupled from the wire codec.
#[derive(Debug, Clone, Copy)]
pub struct AnnounceInfo<'a> {
    /// Torrent being announced.
    pub info_hash: &'a InfoHash,
    /// Client-supplied peer id.
    pub peer_id: &'a PeerId,
    /// BEP-15 `key`: meant to be random, unique per client, and stable across announces.
    pub key: u32,
    /// BEP-15 `IP address` field; `0` means "use my source address".
    pub declared_ip: u32,
    /// Announced listening port.
    pub port: u16,
    /// Bytes left (`0` marks a seeder).
    pub left: u64,
    /// Bytes downloaded so far.
    pub downloaded: u64,
    /// Bytes uploaded so far.
    pub uploaded: u64,
    /// Requested peer count (`-1` means "tracker default").
    pub num_want: i32,
    /// Whether the *source* address is publicly routable. The `IP` field is only a legitimate NAT
    /// hint from private space, so this decides whether setting it is suspicious.
    pub source_is_public: bool,
    /// Peers already in the swarm this announce joined. A real client joins swarms that have other
    /// peers; a source that consistently announces into empty swarms is enumerating info-hashes.
    pub swarm_peers: u32,
}

/// What an announce says.
#[verifier::ext_equal]
pub struct AnnounceFacts {
    pub info_hash: Seq<u8>,
    pub peer_id: Seq<u8>,
    pub key: u32,
    pub declared_ip: u32,
    pub port: u16,
    pub left: u64,
    pub downloaded: u64,
    pub uploaded: u64,
    pub num_want: i32,
    pub source_is_public: bool,
    pub swarm_peers: u32,
}

impl<'a> View for AnnounceInfo<'a> {
    type V = AnnounceFacts;

    open spec fn view(&self) -> AnnounceFacts {
        AnnounceFacts {
            info_hash: self.info_hash@,
            peer_id: self.peer_id@,
            key: self.key,
            declared_ip: self.declared_ip,
            port: self.port,
            left: self.left,
            downloaded: self.downloaded,
            uploaded: self.uploaded,
            num_want: self.num_want,
            source_is_public: self.source_is_public,
            swarm_peers: self.swarm_peers,
        }
    }
}

/// Tunables for the detector.
#[derive(Debug, Clone, Copy, PartialEq, Eq, Structural)]
pub struct Config {
    /// Seconds below which re-announcing the *same* torrent counts as an interval violation.
    pub reannounce_min_interval: u32,
    /// Score at or above which a source is banned.
    pub score_ban_threshold: u32,
    /// Ban duration handed to the nft set element (seconds).
    pub ban_duration: u32,
    /// Total cap on tracked sources (spread across [`SHARDS`]).
    pub max_entries: usize,
    /// Score added per interval violation.
    pub weight_interval: u32,
    /// Score added per connection-id mismatch.
    pub weight_connid: u32,
    /// Score added when a peer_id matches no known client.
    pub weight_peerid: u32,
    /// Score decayed per [`Config::decay_interval`] seconds of silence from a source.
    pub decay_amount: u32,
    /// Seconds that must pass before [`Config::decay_amount`] is subtracted. Decay has to be slow
    /// relative to how often a source is *seen*, or a slow-but-wide flood can never accumulate: at
    /// one point per second, a source observed every 11s loses 11 points between observations,
    /// which erases every signal weighted below that.
    pub decay_interval: u32,
    /// Score added for a trivial BEP-15 `key` (`0` or all-ones).
    pub weight_bad_key: u32,
    /// Score added when the `IP` field is set from a publicly routable source.
    pub weight_declared_ip: u32,
    /// Score added for an unconnectable or privileged port.
    pub weight_bad_port: u32,
    /// Score added when a client claims a complete copy having transferred nothing.
    pub weight_fake_seeder: u32,
    /// Score added when `key` churns for one torrent from one source.
    pub weight_key_churn: u32,
    /// Score added when `peer_id` churns for one torrent from one source.
    pub weight_peerid_churn: u32,
    /// Score added for an excessive `num_want`.
    pub weight_numwant: u32,
    /// `num_want` above which the request is treated as peer harvesting.
    pub numwant_abuse: i32,
    /// Score added once a source has touched [`Config::breadth_threshold`] distinct torrents.
    pub weight_breadth: u32,
    /// Approximate distinct-torrent count that marks a source as enumerating the tracker.
    pub breadth_threshold: u32,
    /// Score added once a source has announced into [`Config::empty_swarm_threshold`] consecutive
    /// empty swarms.
    pub weight_empty_swarm: u32,
    /// Consecutive empty-swarm announces tolerated before a source is treated as enumerating.
    pub empty_swarm_threshold: u32,
    /// Score added for a bulk scrape.
    pub weight_scrape_volume: u32,
    /// Info-hash count at or above which a scrape counts as bulk enumeration.
    pub scrape_volume_threshold: usize,
    /// Score added once a source has been issued [`Config::connect_burst`] connection ids without
    /// ever using one.
    pub weight_connect_spam: u32,
    /// Unanswered connects tolerated before a source is treated as connect spam. A conforming
    /// client needs one per connid window, plus a few for datagrams lost in flight.
    pub connect_burst: u32,
    /// Cap on remembered offenders (the escalation registry).
    pub max_offenders: usize,
    /// Number of escalation tiers; tier `0` is the first offence.
    pub ban_tiers: u32,
    /// Seconds a ban suppresses further bans for the same source. Re-arming is deliberately
    /// **time**-driven, not score-driven: a source whose score stays above the threshold must
    /// still be banned again after its nft entry expired, or it could never escalate.
    pub reban_cooldown: u32,
    /// Inter-arrival gap below which a source counts as announcing "fast". Behavioural signals
    /// only score under this gap: an honest low-activity seeder shows the same *shapes* as a
    /// flood (empty swarms, seeding without transfer, many torrents) but does so slowly, so rate
    /// is the only thing that actually separates them.
    pub fast_announce_gap: u32,
}

/// The tunables' defaults.
pub open spec fn default_config() -> Config {
    Config {
        reannounce_min_interval: 60,
        score_ban_threshold: 100,
        ban_duration: 3600,
        max_entries: 1_000_000,
        weight_interval: 20,
        weight_connid: 15,
        weight_peerid: 5,
        decay_amount: 1,
        decay_interval: 60,
        weight_bad_key: 40,
        weight_declared_ip: 60,
        weight_bad_port: 30,
        weight_fake_seeder: 50,
        weight_key_churn: 35,
        weight_peerid_churn: 35,
        weight_numwant: 10,
        numwant_abuse: 100,
        weight_breadth: 60,
        breadth_threshold: 32,
        weight_empty_swarm: 40,
        empty_swarm_threshold: 8,
        weight_scrape_volume: 15,
        scrape_volume_threshold: 32,
        weight_connect_spam: 25,
        connect_burst: 8,
        max_offenders: 5_000_000,
        ban_tiers: 4,
        reban_cooldown: 3600,
        fast_announce_gap: 300,
    }
}

impl Default for Config {
    fn default() -> (r: Self)
        ensures
            r == default_config(),
    {
        Config {
            reannounce_min_interval: 60,
            score_ban_threshold: 100,
            ban_duration: 3600,
            max_entries: 1_000_000,
            weight_interval: 20,
            weight_connid: 15,
            weight_peerid: 5,
            decay_amount: 1,
            decay_interval: 60,
            weight_bad_key: 40,
            weight_declared_ip: 60,
            weight_bad_port: 30,
            weight_fake_seeder: 50,
            weight_key_churn: 35,
            weight_peerid_churn: 35,
            weight_numwant: 10,
            numwant_abuse: 100,
            weight_breadth: 60,
            breadth_threshold: 32,
            weight_empty_swarm: 40,
            empty_swarm_threshold: 8,
            weight_scrape_volume: 15,
            scrape_volume_threshold: 32,
            weight_connect_spam: 25,
            connect_burst: 8,
            max_offenders: 5_000_000,
            ban_tiers: 4,
            reban_cooldown: 3600,
            fast_announce_gap: 300,
        }
    }
}

/// The most that one announce can score: every announce signal at once.
pub open spec fn weight_sum(c: Config) -> nat {
    (c.weight_bad_key + c.weight_declared_ip + c.weight_bad_port + c.weight_fake_seeder
        + c.weight_numwant + c.weight_interval + c.weight_key_churn + c.weight_peerid_churn
        + c.weight_peerid + c.weight_empty_swarm + c.weight_breadth) as nat
}

impl Config {
    /// Whether the announce signals, all at once, still fit the 32-bit score.
    #[must_use]
    pub fn weights_fit(&self) -> (r: bool)
        ensures
            r == (weight_sum(*self) <= u32::MAX),
    {
        let sum: u64 = self.weight_bad_key as u64 + self.weight_declared_ip as u64
            + self.weight_bad_port as u64 + self.weight_fake_seeder as u64
            + self.weight_numwant as u64 + self.weight_interval as u64
            + self.weight_key_churn as u64 + self.weight_peerid_churn as u64
            + self.weight_peerid as u64 + self.weight_empty_swarm as u64
            + self.weight_breadth as u64;
        sum <= 0xffff_ffff
    }
}

/// The outcome of feeding an event to the detector.
#[derive(Debug, PartialEq, Eq, Structural)]
pub enum Verdict {
    /// Keep serving this source.
    Allow,
    /// Deny in-app and ban the source's IP in nft.
    Ban {
        /// nft element timeout hint, seconds (the target set's own timeout governs expiry).
        duration: u32,
        /// Escalation tier: `0` on the first offence, rising with repeats. The runtime maps this
        /// onto progressively longer-lived nft sets.
        tier: u32,
    },
}

} // verus!

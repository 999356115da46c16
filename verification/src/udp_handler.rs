//! BEP-15 UDP request handler: the pure logic that turns a datagram into a response by driving
//! the store, the connection-id validator, and the codec. No sockets here: the runtime does I/O
//! and calls [`Handler::handle`].

use vstd::prelude::*;

use crate::connid;
use crate::connid::ConnId;
use crate::flag;
use crate::peers;
use crate::store;
use crate::store::{Counts, Store, TorrentView};
use crate::udp;
use crate::udp::{AnnounceView, ParseError, RequestView};
use crate::wire;
use crate::{Event, InfoHash};

verus! {

/// UDP numwant cap for IPv4 clients.
pub const NUMWANT_MAX_V4: usize = 200;

/// UDP numwant cap for IPv6 clients.
pub const NUMWANT_MAX_V6: usize = 66;

/// What the runtime should do with the datagram after handling.
#[derive(Debug, PartialEq, Eq)]
pub enum Action {
    /// Send the first `usize` bytes of the output buffer back to the client.
    Reply(usize),
    /// Silently drop the datagram (malformed, unknown, or denied).
    Drop,
    /// Drop a datagram whose connection id failed validation. Distinct from [`Action::Drop`] so the
    /// runtime can count it and feed the L7 detector without sending a (backscatter) error reply.
    ConnidMismatch,
}

/// The most peers that a client of a family is given.
pub open spec fn numwant_max(is_v4: bool) -> int {
    if is_v4 {
        NUMWANT_MAX_V4 as int
    } else {
        NUMWANT_MAX_V6 as int
    }
}

/// How many peers a client is given: what it asked for, capped; the cap if it left it open.
pub open spec fn granted(requested: int, is_v4: bool) -> int {
    if 0 <= requested <= numwant_max(is_v4) {
        requested
    } else {
        numwant_max(is_v4)
    }
}

/// How many peers to give to a client that asked for `requested`.
pub fn numwant(requested: i32, is_v4: bool) -> (r: usize)
    ensures
        r == granted(requested as int, is_v4),
{
    let max: usize = if is_v4 {
        NUMWANT_MAX_V4
    } else {
        NUMWANT_MAX_V6
    };
    if requested < 0 || requested as usize > max {
        max
    } else {
        requested as usize
    }
}

/// A peer's compact address: its IPv4 or IPv6 address and its port.
pub open spec fn peer_key(src_ip: Seq<u8>, port: u16, is_v4: bool) -> Seq<u8> {
    if is_v4 {
        src_ip.subrange(12, 16) + wire::be_bytes(port as nat, 2)
    } else {
        src_ip + wire::be_bytes(port as nat, 2)
    }
}

/// The compact address of an IPv4 peer.
pub fn v4_key(src_ip: &[u8; 16], port: u16) -> (r: [u8; 6])
    ensures
        r@ == peer_key(src_ip@, port, true),
{
    let p = wire::u16_be(port);
    let k: [u8; 6] = [src_ip[12], src_ip[13], src_ip[14], src_ip[15], p[0], p[1]];
    assert(k@ =~= src_ip@.subrange(12, 16) + p@);
    k
}

/// The compact address of an IPv6 peer.
pub fn v6_key(src_ip: &[u8; 16], port: u16) -> (r: [u8; 18])
    ensures
        r@ == peer_key(src_ip@, port, false),
{
    let s = src_ip;
    let p = wire::u16_be(port);
    let k: [u8; 18] = [
        s[0],
        s[1],
        s[2],
        s[3],
        s[4],
        s[5],
        s[6],
        s[7],
        s[8],
        s[9],
        s[10],
        s[11],
        s[12],
        s[13],
        s[14],
        s[15],
        p[0],
        p[1],
    ];
    assert(k@ =~= src_ip@ + p@);
    k
}

/// The peer flag byte of an announce.
pub open spec fn announce_flags(left: u64, event: Event) -> u8 {
    (if left == 0 {
        flag::SEEDING
    } else {
        0
    }) | (if event == Event::Completed {
        flag::COMPLETED
    } else {
        0
    })
}

/// The peer flag byte of an announce.
pub fn flags_of(left: u64, event: Event) -> (r: u8)
    ensures
        r == announce_flags(left, event),
{
    let seeding: u8 = if left == 0 {
        flag::SEEDING
    } else {
        0
    };
    let completed: u8 = if event == Event::Completed {
        flag::COMPLETED
    } else {
        0
    };
    seeding | completed
}

/// What an announce says of a peer, whichever protocol it came by.
#[verifier::ext_equal]
pub struct PeerReport {
    /// The torrent.
    pub hash: Seq<u8>,
    /// The peer's compact address.
    pub key: Seq<u8>,
    /// Its address family.
    pub is_v4: bool,
    /// Its flag byte.
    pub flags: u8,
    /// Whether it is leaving.
    pub stopped: bool,
}

/// The store after a peer's report.
pub open spec fn reported(
    torrents: Map<Seq<u8>, TorrentView>,
    p: PeerReport,
    now_min: u32,
) -> Map<Seq<u8>, TorrentView> {
    let t = store::known(torrents, p.hash);
    if !p.stopped {
        torrents.insert(
            p.hash,
            if p.is_v4 {
                t.announced_v4(p.key, p.flags, now_min)
            } else {
                t.announced_v6(p.key, p.flags, now_min)
            },
        )
    } else if torrents.contains_key(p.hash) {
        torrents.insert(
            p.hash,
            if p.is_v4 {
                t.removed_v4(p.key, now_min)
            } else {
                t.removed_v6(p.key, now_min)
            },
        )
    } else {
        torrents
    }
}

/// A torrent's counts; zeros if unknown.
pub open spec fn counts_in(torrents: Map<Seq<u8>, TorrentView>, hash: Seq<u8>) -> Counts {
    if torrents.contains_key(hash) {
        torrents[hash].counts()
    } else {
        store::no_counts()
    }
}

/// The compact peers that a client is given: of its own family, and none if it is leaving.
pub open spec fn peers_in(
    torrents: Map<Seq<u8>, TorrentView>,
    p: PeerReport,
    numwant: nat,
) -> Seq<u8> {
    if p.stopped {
        Seq::empty()
    } else if p.is_v4 {
        peers::compact(torrents[p.hash].v4.peers, numwant)
    } else {
        peers::compact(torrents[p.hash].v6.peers, numwant)
    }
}

/// The minute of a second, kept in 32 bits.
pub open spec fn minute(now_secs: u64) -> u32 {
    (now_secs as int / 60 % 0x1_0000_0000) as u32
}

/// What an `announce` request reports of its peer.
pub open spec fn report_of(a: AnnounceView, src_ip: Seq<u8>, is_v4: bool) -> PeerReport {
    PeerReport {
        hash: a.info_hash,
        key: peer_key(src_ip, a.port, is_v4),
        is_v4,
        flags: announce_flags(a.left, a.event),
        stopped: a.event == Event::Stopped,
    }
}

/// The `announce` response after the store has taken the peer's report in.
pub open spec fn answer(
    torrents: Map<Seq<u8>, TorrentView>,
    a: AnnounceView,
    src_ip: Seq<u8>,
    is_v4: bool,
    interval: u32,
) -> Seq<u8> {
    let counts = counts_in(torrents, a.info_hash);
    udp::announce_reply(
        a.transaction_id,
        interval,
        counts.incomplete,
        counts.complete,
        peers_in(
            torrents,
            report_of(a, src_ip, is_v4),
            granted(a.num_want as int, is_v4) as nat,
        ),
    )
}

/// The `scrape` entries of some torrents.
pub open spec fn scraped(torrents: Map<Seq<u8>, TorrentView>, hashes: Seq<Seq<u8>>) -> Seq<
    (u32, u32, u32),
> {
    hashes.map_values(
        |h: Seq<u8>|
            (
                counts_in(torrents, h).complete,
                counts_in(torrents, h).downloaded,
                counts_in(torrents, h).incomplete,
            ),
    )
}

/// Ties the connection-id scheme and the store together for the UDP protocol.
pub struct Handler {
    /// The connection-id scheme.
    pub connid: ConnId,
}

/// What a datagram does: to the store, to the output buffer, and what becomes of it.
#[verifier::ext_equal]
pub struct Handled {
    pub torrents: Map<Seq<u8>, TorrentView>,
    pub out: Seq<u8>,
    pub action: Action,
}

/// The effect of a request: `fresh_id` is the connection id that a `connect` is given, `admitted`
/// says whether the connection id of any other request is accepted.
pub open spec fn responded(
    torrents: Map<Seq<u8>, TorrentView>,
    out: Seq<u8>,
    request: RequestView,
    fresh_id: u64,
    admitted: bool,
    src_ip: Seq<u8>,
    is_v4: bool,
    now_secs: u64,
    interval: u32,
) -> Handled {
    match request {
        RequestView::Connect { transaction_id } => {
            let reply = udp::connect_reply(transaction_id, fresh_id);
            Handled { torrents, out: reply, action: Action::Reply(reply.len() as usize) }
        },
        RequestView::Announce(a) => if admitted {
            let after = reported(torrents, report_of(a, src_ip, is_v4), minute(now_secs));
            let reply = answer(after, a, src_ip, is_v4, interval);
            Handled { torrents: after, out: reply, action: Action::Reply(reply.len() as usize) }
        } else {
            Handled { torrents, out, action: Action::ConnidMismatch }
        },
        RequestView::Scrape(s) => if admitted {
            let reply = udp::scrape_reply(
                s.transaction_id,
                scraped(torrents, udp::strides(s.hashes)),
            );
            Handled { torrents, out: reply, action: Action::Reply(reply.len() as usize) }
        } else {
            Handled { torrents, out, action: Action::ConnidMismatch }
        },
    }
}

/// Whether a request is let in: a `connect` is, any other by its connection id.
pub open spec fn let_in(connid: ConnId, request: RequestView, src_ip: Seq<u8>, now: u64) -> bool {
    let w = connid.window_secs() as nat;
    match request {
        RequestView::Connect { .. } => true,
        RequestView::Announce(a) => connid::accepted(
            connid.key(),
            w,
            a.connection_id,
            src_ip,
            now as nat,
        ),
        RequestView::Scrape(s) => connid::accepted(
            connid.key(),
            w,
            s.connection_id,
            src_ip,
            now as nat,
        ),
    }
}

/// The effect of a datagram: a malformed one is dropped.
pub open spec fn handled(
    connid: ConnId,
    torrents: Map<Seq<u8>, TorrentView>,
    out: Seq<u8>,
    buf: Seq<u8>,
    src_ip: Seq<u8>,
    is_v4: bool,
    now_secs: u64,
    interval: u32,
) -> Handled {
    match udp::request_of(buf) {
        Err(_) => Handled { torrents, out, action: Action::Drop },
        Ok(request) => responded(
            torrents,
            out,
            request,
            connid::issued(connid.key(), connid.window_secs() as nat, src_ip, now_secs as nat),
            let_in(connid, request, src_ip, now_secs),
            src_ip,
            is_v4,
            now_secs,
            interval,
        ),
    }
}

/// A datagram that gets no reply changes neither the store nor the output buffer.
pub proof fn unanswered_changes_nothing(
    connid: ConnId,
    torrents: Map<Seq<u8>, TorrentView>,
    out: Seq<u8>,
    buf: Seq<u8>,
    src_ip: Seq<u8>,
    is_v4: bool,
    now_secs: u64,
    interval: u32,
)
    ensures
        ({
            let h = handled(connid, torrents, out, buf, src_ip, is_v4, now_secs, interval);
            h.action is Reply || (h.torrents == torrents && h.out == out)
        }),
{
}

/// Only announces change the store.
pub proof fn only_announces_change_the_store(
    connid: ConnId,
    torrents: Map<Seq<u8>, TorrentView>,
    out: Seq<u8>,
    buf: Seq<u8>,
    src_ip: Seq<u8>,
    is_v4: bool,
    now_secs: u64,
    interval: u32,
)
    requires
        !(udp::request_of(buf) matches Ok(RequestView::Announce(_))),
    ensures
        handled(connid, torrents, out, buf, src_ip, is_v4, now_secs, interval).torrents == torrents,
{
}

/// An announce touches no torrent but its own.
pub proof fn announce_leaves_other_torrents(
    torrents: Map<Seq<u8>, TorrentView>,
    p: PeerReport,
    now_min: u32,
    other: Seq<u8>,
)
    requires
        other != p.hash,
    ensures
        reported(torrents, p, now_min).contains_key(other) == torrents.contains_key(other),
        torrents.contains_key(other) ==> reported(torrents, p, now_min)[other] == torrents[other],
{
}

/// A client that connects is let in: an announce or scrape from the same address with the
/// connection id of the `connect` response is answered for as long as a window lasts.
pub proof fn connected_client_is_let_in(
    connid: ConnId,
    torrents: Map<Seq<u8>, TorrentView>,
    out: Seq<u8>,
    connect: Seq<u8>,
    request: Seq<u8>,
    src_ip: Seq<u8>,
    is_v4: bool,
    now: u64,
    later: u64,
    interval: u32,
)
    requires
        connid.wf(),
        udp::request_of(connect) matches Ok(RequestView::Connect { .. }),
        now <= later <= now + connid.window_secs(),
        ({
            let reply = handled(connid, torrents, out, connect, src_ip, is_v4, now, interval).out;
            match udp::request_of(request) {
                Ok(RequestView::Announce(a)) => a.connection_id == udp::field(reply, 8, 16),
                Ok(RequestView::Scrape(s)) => s.connection_id == udp::field(reply, 8, 16),
                _ => false,
            }
        }),
    ensures
        ({
            let first = handled(connid, torrents, out, connect, src_ip, is_v4, now, interval);
            handled(
                connid,
                first.torrents,
                first.out,
                request,
                src_ip,
                is_v4,
                later,
                interval,
            ).action is Reply
        }),
{
    let w = connid.window_secs() as nat;
    let id = connid::issued(connid.key(), w, src_ip, now as nat);
    let tx = match udp::request_of(connect) {
        Ok(RequestView::Connect { transaction_id }) => transaction_id,
        _ => 0,
    };
    udp::connect_reply_reads_back(tx, id);
    connid::issued_id_is_accepted(connid.key(), w, src_ip, now as nat, later as nat);
}

/// A scrape after an announce reads the counts that the announce was answered with.
pub proof fn scrape_reads_what_announce_wrote(
    torrents: Map<Seq<u8>, TorrentView>,
    a: AnnounceView,
    src_ip: Seq<u8>,
    is_v4: bool,
    interval: u32,
)
    ensures
        ({
            let reply = answer(torrents, a, src_ip, is_v4, interval);
            let entry = scraped(torrents, seq![a.info_hash])[0];
            &&& udp::field(reply, 16, 20) == entry.0
            &&& udp::field(reply, 12, 16) == entry.2
        }),
{
    let counts = counts_in(torrents, a.info_hash);
    udp::announce_reply_reads_back(
        a.transaction_id,
        interval,
        counts.incomplete,
        counts.complete,
        peers_in(
            torrents,
            report_of(a, src_ip, is_v4),
            granted(a.num_want as int, is_v4) as nat,
        ),
    );
}

/// No announce is answered with more than 200 IPv4 or 66 IPv6 peers, so the response fits a
/// datagram of 1220 bytes.
pub proof fn announce_response_fits(
    torrents: Map<Seq<u8>, TorrentView>,
    a: AnnounceView,
    src_ip: Seq<u8>,
    is_v4: bool,
    interval: u32,
)
    requires
        store::known(torrents, a.info_hash).valid(),
        a.event != Event::Stopped ==> torrents.contains_key(a.info_hash),
    ensures
        answer(torrents, a, src_ip, is_v4, interval).len() <= 1220,
{
    broadcast use wire::be_bytes_len;

    let want = granted(a.num_want as int, is_v4) as nat;
    if a.event != Event::Stopped {
        peers::compact_len(torrents[a.info_hash].v4.peers, 6, want);
        peers::compact_len(torrents[a.info_hash].v6.peers, 18, want);
    }
}

/// No scrape is answered for more than 75 torrents, so the response fits 908 bytes.
pub proof fn scrape_response_fits(
    torrents: Map<Seq<u8>, TorrentView>,
    buf: Seq<u8>,
    transaction_id: u32,
)
    requires
        buf.len() >= udp::MIN_PACKET,
    ensures
        ({
            let entries = scraped(torrents, udp::strides(udp::scrape_of(buf).hashes));
            &&& entries.len() <= udp::MAX_SCRAPE_HASHES
            &&& udp::scrape_reply(transaction_id, entries).len() <= 908
        }),
{
    broadcast use wire::be_bytes_len;

    let entries = scraped(torrents, udp::strides(udp::scrape_of(buf).hashes));
    udp::scrape_entries_len(entries);
}

/// A peer that announced and is not leaving is in its swarm; one that is leaving is not.
pub proof fn announced_peer_is_in_the_swarm(
    torrents: Map<Seq<u8>, TorrentView>,
    p: PeerReport,
    now_min: u32,
)
    ensures
        ({
            let after = store::known(reported(torrents, p, now_min), p.hash);
            let swarm = if p.is_v4 {
                after.v4
            } else {
                after.v6
            };
            swarm.peers.contains_key(p.key) == !p.stopped
        }),
{
}

/// Take a peer's report into the store and append the compact peers it is given to `out`.
pub fn report_peer(
    store: &mut Store,
    hash: &InfoHash,
    src_ip: &[u8; 16],
    port: u16,
    is_v4: bool,
    flags: u8,
    stopped: bool,
    want: usize,
    now_min: u32,
    out: &mut Vec<u8>,
) -> (r: Counts)
    requires
        old(store).wf(),
    ensures
        final(store).wf(),
        ({
            let p = PeerReport {
                hash: hash@,
                key: peer_key(src_ip@, port, is_v4),
                is_v4,
                flags,
                stopped,
            };
            &&& final(store)@ == reported(old(store)@, p, now_min)
            &&& final(out)@ == old(out)@ + peers_in(final(store)@, p, want as nat)
            &&& r == counts_in(final(store)@, hash@)
        }),
{
    assert(out@ + Seq::<u8>::empty() =~= out@);
    if is_v4 {
        let key = v4_key(src_ip, port);
        if stopped {
            store.remove_v4(hash, &key, now_min)
        } else {
            store.announce_v4(hash, key, flags, want, now_min, out)
        }
    } else {
        let key = v6_key(src_ip, port);
        if stopped {
            store.remove_v6(hash, &key, now_min)
        } else {
            store.announce_v6(hash, key, flags, want, now_min, out)
        }
    }
}

/// A header written over the first bytes.
proof fn header_over(out: Seq<u8>, head: Seq<u8>, tail: Seq<u8>)
    requires
        out.len() == head.len() + tail.len(),
        out.skip(head.len() as int) == tail,
    ensures
        udp::overwritten(out, 0, head) == head + tail,
{
    assert forall|i: int| head.len() <= i < out.len() implies out[i] == tail[i - head.len()] by {
        assert(out.skip(head.len() as int)[i - head.len()] == out[i]);
    }
    assert(udp::overwritten(out, 0, head) =~= head + tail);
}

impl Handler {
    /// The connection-id scheme is valid.
    pub open spec fn wf(&self) -> bool {
        self.connid.wf()
    }

    /// Create a handler over a connection-id scheme.
    #[must_use]
    pub fn new(connid: ConnId) -> (r: Self)
        requires
            connid.wf(),
        ensures
            r.wf(),
            r.connid == connid,
    {
        Handler { connid }
    }

    /// Handle one datagram. `src_ip` is the 16-byte (v4-mapped for IPv4) source address, `is_v4`
    /// selects the peer family, `now_secs` is the current wall-clock second, and `interval` is the
    /// (already jittered) announce interval to advertise. The response is written into `out`.
    pub fn handle(
        &self,
        store: &mut Store,
        buf: &[u8],
        src_ip: &[u8; 16],
        is_v4: bool,
        now_secs: u64,
        interval: u32,
        out: &mut Vec<u8>,
    ) -> (r: Action)
        requires
            self.wf(),
            old(store).wf(),
        ensures
            final(store).wf(),
            handled(
                self.connid,
                old(store)@,
                old(out)@,
                buf@,
                src_ip@,
                is_v4,
                now_secs,
                interval,
            ) == (Handled { torrents: final(store)@, out: final(out)@, action: r }),
    {
        let req = match udp::parse(buf) {
            Ok(req) => req,
            Err(_) => {
                return Action::Drop;
            },
        };
        let (fresh_id, admitted): (u64, bool) = match &req {
            udp::Request::Connect { .. } => (self.connid.generate(src_ip, now_secs), true),
            udp::Request::Announce(a) => (
                0,
                self.connid.validate(a.connection_id, src_ip, now_secs),
            ),
            udp::Request::Scrape(s) => (
                0,
                self.connid.validate(s.connection_id, src_ip, now_secs),
            ),
        };
        Self::respond(
            store,
            &req,
            fresh_id,
            admitted,
            src_ip,
            is_v4,
            now_secs,
            interval,
            out,
        )
    }

    /// Respond to a parsed request. A `connect` is given `fresh_id`; any other request is served
    /// only if it is `admitted`, that is if its connection id was accepted.
    pub fn respond(
        store: &mut Store,
        req: &udp::Request<'_>,
        fresh_id: u64,
        admitted: bool,
        src_ip: &[u8; 16],
        is_v4: bool,
        now_secs: u64,
        interval: u32,
        out: &mut Vec<u8>,
    ) -> (r: Action)
        requires
            old(store).wf(),
        ensures
            final(store).wf(),
            responded(
                old(store)@,
                old(out)@,
                req@,
                fresh_id,
                admitted,
                src_ip@,
                is_v4,
                now_secs,
                interval,
            ) == (Handled { torrents: final(store)@, out: final(out)@, action: r }),
    {
        broadcast use wire::be_bytes_len;

        match req {
            udp::Request::Connect { transaction_id } => {
                out.clear();
                out.resize(16, 0);
                proof {
                    let reply = udp::connect_reply(*transaction_id, fresh_id);
                    assert(out@.skip(16) =~= Seq::<u8>::empty());
                    assert(reply + Seq::<u8>::empty() =~= reply);
                    header_over(out@, reply, Seq::empty());
                }
                udp::write_connect(out.as_mut_slice(), *transaction_id, fresh_id);
                Action::Reply(16)
            },
            udp::Request::Announce(a) => {
                if !admitted {
                    return Action::ConnidMismatch;
                }
                out.clear();
                out.resize(20, 0);  // reserve the header; the store appends peers after it
                let counts = Self::apply_announce(store, a, src_ip, is_v4, now_secs, out);
                proof {
                    let given = peers_in(
                        store@,
                        report_of(a@, src_ip@, is_v4),
                        granted(a.num_want as int, is_v4) as nat,
                    );
                    let head = udp::announce_reply(
                        a.transaction_id,
                        interval,
                        counts.incomplete,
                        counts.complete,
                        Seq::empty(),
                    );
                    assert(out@.skip(20) =~= given);
                    header_over(out@, head, given);
                    assert(head + given =~= answer(store@, a@, src_ip@, is_v4, interval));
                }
                udp::write_announce(
                    out.as_mut_slice(),
                    a.transaction_id,
                    interval,
                    counts.incomplete,
                    counts.complete,
                    &[],
                );
                Action::Reply(out.len())
            },
            udp::Request::Scrape(s) => {
                if !admitted {
                    return Action::ConnidMismatch;
                }
                let entries = Self::scrape_entries(store, s);
                assert(entries@.len() * 20 <= s.hashes.len());
                out.clear();
                out.resize(8 + entries.len() * 12, 0);
                proof {
                    let reply = udp::scrape_reply(s.transaction_id, entries@);
                    udp::scrape_entries_len(entries@);
                    assert(out@.skip(out@.len() as int) =~= Seq::<u8>::empty());
                    assert(reply + Seq::<u8>::empty() =~= reply);
                    header_over(out@, reply, Seq::empty());
                }
                let n: usize = udp::write_scrape(
                    out.as_mut_slice(),
                    s.transaction_id,
                    entries.as_slice(),
                );
                Action::Reply(n)
            },
        }
    }

    /// The counts of the requested torrents.
    fn scrape_entries(store: &Store, s: &udp::Scrape) -> (r: Vec<(u32, u32, u32)>)
        requires
            store.wf(),
        ensures
            r@ == scraped(store@, udp::strides(s.hashes@)),
            r@.len() * 20 <= s.hashes@.len(),
    {
        let ghost hs = udp::strides(s.hashes@);
        let hashes = s.iter_hashes();
        let mut entries: Vec<(u32, u32, u32)> = Vec::new();
        let mut i: usize = 0;
        while i < hashes.len()
            invariant
                store.wf(),
                i <= hashes@.len(),
                hashes@.len() == hs.len(),
                forall|j: int| 0 <= j < hs.len() ==> (#[trigger] hashes@[j])@ == hs[j],
                entries@ == scraped(store@, hs.take(i as int)),
            decreases hashes@.len() - i,
        {
            let c = store.scrape(hashes[i]);
            entries.push((c.complete, c.downloaded, c.incomplete));
            proof {
                assert(hashes@[i as int]@ == hs[i as int]);
                assert(entries@ =~= scraped(store@, hs.take(i + 1)));
            }
            i = i + 1;
        }
        assert(hs.take(hs.len() as int) =~= hs);
        entries
    }

    /// Apply an announce to the store, leaving the compact peer bytes in `out`; returns counts.
    fn apply_announce(
        store: &mut Store,
        a: &udp::Announce,
        src_ip: &[u8; 16],
        is_v4: bool,
        now_secs: u64,
        out: &mut Vec<u8>,
    ) -> (r: Counts)
        requires
            old(store).wf(),
        ensures
            final(store).wf(),
            final(store)@ == reported(
                old(store)@,
                report_of(a@, src_ip@, is_v4),
                minute(now_secs),
            ),
            final(out)@ == old(out)@ + peers_in(
                final(store)@,
                report_of(a@, src_ip@, is_v4),
                granted(a.num_want as int, is_v4) as nat,
            ),
            r == counts_in(final(store)@, a.info_hash@),
    {
        let now_min: u32 = (now_secs / 60 % 0x1_0000_0000) as u32;
        let flags: u8 = flags_of(a.left, a.event);
        let stopped: bool = a.event == Event::Stopped;
        let want: usize = numwant(a.num_want, is_v4);
        // `out` already holds the 20-byte header placeholder; the store appends peers after it.
        report_peer(
            store,
            a.info_hash,
            src_ip,
            a.port,
            is_v4,
            flags,
            stopped,
            want,
            now_min,
            out,
        )
    }
}

} // verus!

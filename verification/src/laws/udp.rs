//! What holds of the UDP tracker, from the bytes of a datagram to the bytes of its reply.

use vstd::prelude::*;

use crate::connid;
use crate::connid::ConnId;
use crate::laws::store as store_laws;
use crate::laws::swarm;
use crate::peers;
use crate::store;
use crate::store::TorrentView;
use crate::udp;
use crate::udp::{AnnounceView, ParseError, RequestView, ScrapeView};
use crate::udp_handler;
use crate::udp_handler::Action;
use crate::wire;
use crate::Event;

verus! {

/// The bytes of an `announce`, field after field.
pub open spec fn announce_bytes(
    connection_id: u64,
    transaction_id: u32,
    info_hash: Seq<u8>,
    peer_id: Seq<u8>,
    downloaded: u64,
    left: u64,
    uploaded: u64,
    event: u32,
    address: u32,
    key: u32,
    num_want: u32,
    port: u16,
) -> Seq<u8> {
    wire::be_bytes(connection_id as nat, 8) + wire::be_bytes(1, 4) + wire::be_bytes(
        transaction_id as nat,
        4,
    ) + info_hash + peer_id + wire::be_bytes(downloaded as nat, 8) + wire::be_bytes(left as nat, 8)
        + wire::be_bytes(uploaded as nat, 8) + wire::be_bytes(event as nat, 4) + wire::be_bytes(
        address as nat,
        4,
    ) + wire::be_bytes(key as nat, 4) + wire::be_bytes(num_want as nat, 4) + wire::be_bytes(
        port as nat,
        2,
    )
}

/// Numbers of the usual widths read back.
pub proof fn widths_read_back(a: u64, b: u32, c: u16)
    ensures
        wire::be_nat(wire::be_bytes(a as nat, 8)) == a,
        wire::be_nat(wire::be_bytes(b as nat, 4)) == b,
        wire::be_nat(wire::be_bytes(c as nat, 2)) == c,
{
    reveal_with_fuel(wire::pow256, 9);
    wire::be_nat_of_be_bytes(a as nat, 8);
    wire::be_nat_of_be_bytes(b as nat, 4);
    wire::be_nat_of_be_bytes(c as nat, 2);
}

/// An `announce` is understood field by field, whatever follows it: each value stands where the
/// protocol has it, `num_want` in two's complement, and the event codes 1 and 3 are `completed`
/// and `stopped`.
pub proof fn announce_is_understood(
    connection_id: u64,
    transaction_id: u32,
    info_hash: Seq<u8>,
    peer_id: Seq<u8>,
    downloaded: u64,
    left: u64,
    uploaded: u64,
    event: u32,
    address: u32,
    key: u32,
    num_want: u32,
    port: u16,
    rest: Seq<u8>,
)
    requires
        info_hash.len() == 20,
        peer_id.len() == 20,
    ensures
        ({
            let buf = announce_bytes(
                connection_id,
                transaction_id,
                info_hash,
                peer_id,
                downloaded,
                left,
                uploaded,
                event,
                address,
                key,
                num_want,
                port,
            ) + rest;
            &&& udp::request_of(buf) matches Ok(RequestView::Announce(a)) && {
                &&& a.connection_id == connection_id
                &&& a.transaction_id == transaction_id
                &&& a.info_hash == info_hash
                &&& a.peer_id == peer_id
                &&& a.downloaded == downloaded
                &&& a.left == left
                &&& a.uploaded == uploaded
                &&& a.event is Completed <==> event == 1
                &&& a.event is Stopped <==> event == 3
                &&& a.num_want == (if num_want < 0x8000_0000 {
                    num_want as int
                } else {
                    num_want - 0x1_0000_0000
                })
                &&& a.port == port
            }
            &&& udp::field(buf, 84, 88) == address
            &&& udp::field(buf, 88, 92) == key
        }),
{
    broadcast use wire::be_bytes_len;

    let buf = announce_bytes(
        connection_id,
        transaction_id,
        info_hash,
        peer_id,
        downloaded,
        left,
        uploaded,
        event,
        address,
        key,
        num_want,
        port,
    ) + rest;
    assert(buf.len() == 98 + rest.len());
    widths_read_back(connection_id, 1, port);
    widths_read_back(downloaded, transaction_id, port);
    widths_read_back(left, event, port);
    widths_read_back(uploaded, address, port);
    widths_read_back(uploaded, key, port);
    widths_read_back(uploaded, num_want, port);
    assert(buf.subrange(0, 8) =~= wire::be_bytes(connection_id as nat, 8));
    assert(buf.subrange(8, 12) =~= wire::be_bytes(1, 4));
    assert(buf.subrange(12, 16) =~= wire::be_bytes(transaction_id as nat, 4));
    assert(buf.subrange(16, 36) =~= info_hash);
    assert(buf.subrange(36, 56) =~= peer_id);
    assert(buf.subrange(56, 64) =~= wire::be_bytes(downloaded as nat, 8));
    assert(buf.subrange(64, 72) =~= wire::be_bytes(left as nat, 8));
    assert(buf.subrange(72, 80) =~= wire::be_bytes(uploaded as nat, 8));
    assert(buf.subrange(80, 84) =~= wire::be_bytes(event as nat, 4));
    assert(buf.subrange(84, 88) =~= wire::be_bytes(address as nat, 4));
    assert(buf.subrange(88, 92) =~= wire::be_bytes(key as nat, 4));
    assert(buf.subrange(92, 96) =~= wire::be_bytes(num_want as nat, 4));
    assert(buf.subrange(96, 98) =~= wire::be_bytes(port as nat, 2));
}

/// A `connect` is understood by its magic number, and by no other.
pub proof fn connect_is_understood(magic: u64, transaction_id: u32, rest: Seq<u8>)
    ensures
        ({
            let buf = wire::be_bytes(magic as nat, 8) + wire::be_bytes(0, 4) + wire::be_bytes(
                transaction_id as nat,
                4,
            ) + rest;
            if magic == 0x417_2710_1980 {
                udp::request_of(buf) == Ok::<RequestView, ParseError>(
                    RequestView::Connect { transaction_id },
                )
            } else {
                udp::request_of(buf) == Err::<RequestView, ParseError>(ParseError::BadProtocolId)
            }
        }),
{
    broadcast use wire::be_bytes_len;

    let buf = wire::be_bytes(magic as nat, 8) + wire::be_bytes(0, 4) + wire::be_bytes(
        transaction_id as nat,
        4,
    ) + rest;
    widths_read_back(magic, 0, 0);
    widths_read_back(magic, transaction_id, 0);
    assert(buf.subrange(0, 8) =~= wire::be_bytes(magic as nat, 8));
    assert(buf.subrange(8, 12) =~= wire::be_bytes(0, 4));
    assert(buf.subrange(12, 16) =~= wire::be_bytes(transaction_id as nat, 4));
}

/// A `scrape` asks for the torrents whose hashes follow its header, in that order, up to 75; a
/// part of a hash at the end is passed over.
pub proof fn scrape_is_understood(
    connection_id: u64,
    transaction_id: u32,
    hashes: Seq<u8>,
    i: int,
)
    ensures
        ({
            let buf = wire::be_bytes(connection_id as nat, 8) + wire::be_bytes(2, 4)
                + wire::be_bytes(transaction_id as nat, 4) + hashes;
            &&& udp::request_of(buf) matches Ok(RequestView::Scrape(s)) && {
                &&& s.connection_id == connection_id
                &&& s.transaction_id == transaction_id
                &&& udp::strides(s.hashes).len() == (if hashes.len() / 20 <= 75 {
                    hashes.len() / 20
                } else {
                    75
                })
                &&& 0 <= i < udp::strides(s.hashes).len() ==> udp::strides(s.hashes)[i]
                    == hashes.subrange(20 * i, 20 * i + 20)
            }
        }),
{
    broadcast use wire::be_bytes_len;

    let buf = wire::be_bytes(connection_id as nat, 8) + wire::be_bytes(2, 4) + wire::be_bytes(
        transaction_id as nat,
        4,
    ) + hashes;
    widths_read_back(connection_id, 2, 0);
    widths_read_back(connection_id, transaction_id, 0);
    assert(buf.subrange(0, 8) =~= wire::be_bytes(connection_id as nat, 8));
    assert(buf.subrange(8, 12) =~= wire::be_bytes(2, 4));
    assert(buf.subrange(12, 16) =~= wire::be_bytes(transaction_id as nat, 4));
    let s = udp::scrape_of(buf);
    let n = udp::scrape_len(buf.len());
    assert(s.hashes.len() == n * 20);
    if 0 <= i < n {
        assert(udp::strides(s.hashes)[i] =~= hashes.subrange(20 * i, 20 * i + 20));
    }
}

/// What is malformed is told by its length and action, and says nothing else.
pub proof fn malformed_is_told(buf: Seq<u8>)
    ensures
        buf.len() < 16 ==> udp::request_of(buf) == Err::<RequestView, ParseError>(
            ParseError::TooShort,
        ),
        16 <= buf.len() < 98 && udp::field(buf, 8, 12) == 1 ==> udp::request_of(buf) == Err::<
            RequestView,
            ParseError,
        >(ParseError::AnnounceTooShort),
        buf.len() >= 16 && udp::field(buf, 8, 12) > 2 ==> (udp::request_of(buf) matches Err(
            ParseError::UnknownAction(n),
        ) && n == udp::field(buf, 8, 12)),
        buf.len() >= 16 && udp::field(buf, 8, 12) == 2 ==> udp::request_of(buf) is Ok,
        buf.len() >= 98 && udp::field(buf, 8, 12) == 1 ==> udp::request_of(buf) is Ok,
{
    if buf.len() >= 16 {
        let action = buf.subrange(8, 12);
        wire::be_nat_bound(action);
        reveal_with_fuel(wire::pow256, 5);
    }
}

/// A client reads the transaction id and the message back from an `error` response.
pub proof fn error_reply_reads_back(transaction_id: u32, message: Seq<u8>)
    ensures
        udp::field(udp::error_reply(transaction_id, message), 0, 4) == 3,
        udp::field(udp::error_reply(transaction_id, message), 4, 8) == transaction_id,
        udp::error_reply(transaction_id, message).skip(8) == message,
{
    broadcast use wire::be_bytes_len;

    let reply = udp::error_reply(transaction_id, message);
    widths_read_back(0, 3, 0);
    widths_read_back(0, transaction_id, 0);
    assert(reply.subrange(0, 4) =~= wire::be_bytes(3, 4));
    assert(reply.subrange(4, 8) =~= wire::be_bytes(transaction_id as nat, 4));
    assert(reply.skip(8) =~= message);
}

/// A client is given as many peers as it asks for, up to 200 of IPv4 and 66 of IPv6; one that
/// leaves it open with a negative number gets as many as the limit allows.
pub proof fn peers_are_granted_up_to_the_limit(requested: int)
    ensures
        0 <= requested <= 200 ==> udp_handler::granted(requested, true) == requested,
        0 <= requested <= 66 ==> udp_handler::granted(requested, false) == requested,
        requested < 0 || requested > 200 ==> udp_handler::granted(requested, true) == 200,
        requested < 0 || requested > 66 ==> udp_handler::granted(requested, false) == 66,
{
}

/// A compact address is the last four bytes of a mapped IPv4 address, or all sixteen of an IPv6
/// one, and then the port, high byte first.
pub proof fn compact_address_reads_back(src_ip: Seq<u8>, port: u16)
    requires
        src_ip.len() == 16,
    ensures
        ({
            let k4 = udp_handler::peer_key(src_ip, port, true);
            let k6 = udp_handler::peer_key(src_ip, port, false);
            &&& k4.len() == 6
            &&& k4[0] == src_ip[12] && k4[1] == src_ip[13] && k4[2] == src_ip[14] && k4[3]
                == src_ip[15]
            &&& k4[4] * 256 + k4[5] == port
            &&& k6.len() == 18
            &&& k6.take(16) == src_ip
            &&& k6[16] * 256 + k6[17] == port
        }),
{
    broadcast use wire::be_bytes_len;

    reveal_with_fuel(wire::be_bytes, 3);
    let k6 = udp_handler::peer_key(src_ip, port, false);
    assert(k6.take(16) =~= src_ip);
}

/// The flag byte of an announce says seeding exactly if nothing is left, completed exactly if the
/// event says so, and nothing else.
pub proof fn flags_say_what_was_announced(left: u64, event: Event)
    ensures
        (udp_handler::announce_flags(left, event) & 0x80 != 0) == (left == 0),
        (udp_handler::announce_flags(left, event) & 0x40 != 0) == (event is Completed),
        udp_handler::announce_flags(left, event) & 0x3f == 0,
{
    assert(0x80u8 | 0x40 == 0xc0 && 0x80u8 | 0 == 0x80 && 0u8 | 0x40 == 0x40 && 0u8 | 0 == 0)
        by (bit_vector);
    assert(0xc0u8 & 0x80 != 0 && 0x80u8 & 0x80 != 0 && 0x40u8 & 0x80 == 0 && 0u8 & 0x80 == 0)
        by (bit_vector);
    assert(0xc0u8 & 0x40 != 0 && 0x80u8 & 0x40 == 0 && 0x40u8 & 0x40 != 0 && 0u8 & 0x40 == 0)
        by (bit_vector);
    assert(0xc0u8 & 0x3f == 0 && 0x80u8 & 0x3f == 0 && 0x40u8 & 0x3f == 0 && 0u8 & 0x3f == 0)
        by (bit_vector);
}

/// The swarm of a family.
pub open spec fn family(t: TorrentView, is_v4: bool) -> peers::SwarmView {
    if is_v4 {
        t.v4
    } else {
        t.v6
    }
}

/// The seeders of both families of a torrent, by their flags.
pub open spec fn all_seeders(t: TorrentView) -> nat {
    swarm::top_bit_set(t.v4.peers).len() + swarm::top_bit_set(t.v6.peers).len()
}

/// The peers of both families of a torrent.
pub open spec fn all_peers(t: TorrentView) -> nat {
    t.v4.peers.len() + t.v6.peers.len()
}

/// A torrent stays valid through a peer's report.
proof fn report_keeps_valid(t: TorrentView, src_ip: Seq<u8>, port: u16, flags: u8, now: u32)
    requires
        t.valid(),
        src_ip.len() == 16,
    ensures
        t.announced_v4(udp_handler::peer_key(src_ip, port, true), flags, now).valid(),
        t.announced_v6(udp_handler::peer_key(src_ip, port, false), flags, now).valid(),
        t.removed_v4(udp_handler::peer_key(src_ip, port, true), now).valid(),
        t.removed_v6(udp_handler::peer_key(src_ip, port, false), now).valid(),
{
    compact_address_reads_back(src_ip, port);
}

/// An announce puts the peer into its torrent's swarm, under its own address and family, seen this
/// minute and seeding exactly if nothing is left. The other family's swarm stays as it was.
pub proof fn announce_joins_the_swarm(
    torrents: Map<Seq<u8>, TorrentView>,
    out: Seq<u8>,
    a: AnnounceView,
    fresh_id: u64,
    src_ip: Seq<u8>,
    is_v4: bool,
    now_secs: u64,
    interval: u32,
)
    requires
        src_ip.len() == 16,
        a.event !is Stopped,
        now_secs / 60 <= u32::MAX,
    ensures
        ({
            let h = udp_handler::responded(
                torrents,
                out,
                RequestView::Announce(a),
                fresh_id,
                true,
                src_ip,
                is_v4,
                now_secs,
                interval,
            );
            let before = store::known(torrents, a.info_hash);
            let own = family(h.torrents[a.info_hash], is_v4).peers;
            let key = (if is_v4 {
                src_ip.skip(12)
            } else {
                src_ip
            }).push((a.port / 256) as u8).push((a.port % 256) as u8);
            &&& h.torrents.contains_key(a.info_hash)
            &&& own.contains_key(key)
            &&& own[key].seen == now_secs / 60
            &&& (own[key].flags & 0x80 != 0) == (a.left == 0)
            &&& family(h.torrents[a.info_hash], !is_v4) == family(before, !is_v4)
            &&& h.torrents[a.info_hash].base == now_secs / 60
        }),
{
    let before = store::known(torrents, a.info_hash);
    let flags = udp_handler::announce_flags(a.left, a.event);
    let now = udp_handler::minute(now_secs);
    let key = udp_handler::peer_key(src_ip, a.port, is_v4);
    compact_address_reads_back(src_ip, a.port);
    assert(key =~= (if is_v4 {
        src_ip.skip(12)
    } else {
        src_ip
    }).push((a.port / 256) as u8).push((a.port % 256) as u8));
    flags_say_what_was_announced(a.left, a.event);
    swarm::announce_registers_the_peer(family(before, is_v4), key, flags, now, key.push(0));
}

/// The reply to an announce tells of the swarm that it joined: it gives back the transaction id
/// and the interval, counts the peers of both families, and lists peers of the client's own
/// family, as many as it asked for within the limits.
pub proof fn announce_reply_tells_of_the_swarm(
    torrents: Map<Seq<u8>, TorrentView>,
    out: Seq<u8>,
    a: AnnounceView,
    fresh_id: u64,
    src_ip: Seq<u8>,
    is_v4: bool,
    now_secs: u64,
    interval: u32,
)
    requires
        src_ip.len() == 16,
        store::known(torrents, a.info_hash).valid(),
        all_peers(store::known(torrents, a.info_hash)) < 0xffff_ffff,
        a.event !is Stopped,
    ensures
        ({
            let h = udp_handler::responded(
                torrents,
                out,
                RequestView::Announce(a),
                fresh_id,
                true,
                src_ip,
                is_v4,
                now_secs,
                interval,
            );
            let t = h.torrents[a.info_hash];
            let limit = if is_v4 {
                200int
            } else {
                66
            };
            &&& h.action == Action::Reply(h.out.len() as usize)
            &&& udp::field(h.out, 0, 4) == 1
            &&& udp::field(h.out, 4, 8) == a.transaction_id
            &&& udp::field(h.out, 8, 12) == interval
            &&& udp::field(h.out, 12, 16) + udp::field(h.out, 16, 20) == all_peers(t)
            &&& udp::field(h.out, 16, 20) == all_seeders(t)
            &&& h.out.skip(20) == peers::compact(
                family(t, is_v4).peers,
                (if 0 <= a.num_want <= limit {
                    a.num_want as int
                } else {
                    limit
                }) as nat,
            )
        }),
{
    let h = udp_handler::responded(
        torrents,
        out,
        RequestView::Announce(a),
        fresh_id,
        true,
        src_ip,
        is_v4,
        now_secs,
        interval,
    );
    let before = store::known(torrents, a.info_hash);
    let t = h.torrents[a.info_hash];
    let flags = udp_handler::announce_flags(a.left, a.event);
    report_keeps_valid(before, src_ip, a.port, flags, udp_handler::minute(now_secs));
    peers_are_granted_up_to_the_limit(a.num_want as int);
    let counts = t.counts();
    udp::announce_reply_reads_back(
        a.transaction_id,
        interval,
        counts.incomplete,
        counts.complete,
        udp_handler::peers_in(
            h.torrents,
            udp_handler::report_of(a, src_ip, is_v4),
            udp_handler::granted(a.num_want as int, is_v4) as nat,
        ),
    );
    counters_fit(t);
}

/// The counters of a torrent, as far as its peers go.
proof fn counters_fit(t: TorrentView)
    requires
        t.valid(),
        all_peers(t) < 0x1_0000_0000,
    ensures
        t.counts().complete == all_seeders(t),
        t.counts().complete + t.counts().incomplete == all_peers(t),
{
    swarm::seeders_are_by_flag(t.v4.peers);
    swarm::seeders_are_by_flag(t.v6.peers);
}

/// A departure takes the peer out of its family's swarm and is answered with the counts that are
/// left, and no peers. Where the torrent is unknown it stays so, and the counts are zero.
pub proof fn departure_is_answered(
    torrents: Map<Seq<u8>, TorrentView>,
    out: Seq<u8>,
    a: AnnounceView,
    fresh_id: u64,
    src_ip: Seq<u8>,
    is_v4: bool,
    now_secs: u64,
    interval: u32,
)
    requires
        src_ip.len() == 16,
        store::known(torrents, a.info_hash).valid(),
        all_peers(store::known(torrents, a.info_hash)) < 0xffff_ffff,
        a.event is Stopped,
    ensures
        ({
            let h = udp_handler::responded(
                torrents,
                out,
                RequestView::Announce(a),
                fresh_id,
                true,
                src_ip,
                is_v4,
                now_secs,
                interval,
            );
            let t = store::known(h.torrents, a.info_hash);
            let key = udp_handler::peer_key(src_ip, a.port, is_v4);
            &&& h.torrents.contains_key(a.info_hash) == torrents.contains_key(a.info_hash)
            &&& !family(t, is_v4).peers.contains_key(key)
            &&& family(t, !is_v4) == family(store::known(torrents, a.info_hash), !is_v4)
            &&& family(t, is_v4).downloaded == family(
                store::known(torrents, a.info_hash),
                is_v4,
            ).downloaded
            &&& h.out.len() == 20
            &&& udp::field(h.out, 0, 4) == 1
            &&& udp::field(h.out, 4, 8) == a.transaction_id
            &&& udp::field(h.out, 8, 12) == interval
            &&& udp::field(h.out, 12, 16) + udp::field(h.out, 16, 20) == all_peers(t)
            &&& udp::field(h.out, 16, 20) == all_seeders(t)
        }),
{
    broadcast use wire::be_bytes_len;

    let h = udp_handler::responded(
        torrents,
        out,
        RequestView::Announce(a),
        fresh_id,
        true,
        src_ip,
        is_v4,
        now_secs,
        interval,
    );
    let before = store::known(torrents, a.info_hash);
    let t = store::known(h.torrents, a.info_hash);
    report_keeps_valid(before, src_ip, a.port, 0, udp_handler::minute(now_secs));
    if !h.torrents.contains_key(a.info_hash) {
        store_laws::unknown_torrent_counts_nothing(h.torrents, a.info_hash);
    }
    let counts = udp_handler::counts_in(h.torrents, a.info_hash);
    assert(counts == t.counts());
    udp::announce_reply_reads_back(
        a.transaction_id,
        interval,
        counts.incomplete,
        counts.complete,
        Seq::empty(),
    );
    counters_fit(t);
}

/// Each entry of a scrape reply tells of the torrent asked for in its place: its seeders, its
/// recorded downloads and its leechers, each of both families; of an unknown torrent zeros.
pub proof fn scrape_tells_of_each_torrent(
    torrents: Map<Seq<u8>, TorrentView>,
    out: Seq<u8>,
    s: ScrapeView,
    fresh_id: u64,
    src_ip: Seq<u8>,
    is_v4: bool,
    now_secs: u64,
    interval: u32,
    i: int,
)
    requires
        0 <= i < s.hashes.len() / 20,
        ({
            let t = store::known(torrents, s.hashes.subrange(20 * i, 20 * i + 20));
            &&& t.valid()
            &&& all_peers(t) < 0x1_0000_0000
            &&& t.v4.downloaded + t.v6.downloaded < 0x1_0000_0000
        }),
    ensures
        ({
            let h = udp_handler::responded(
                torrents,
                out,
                RequestView::Scrape(s),
                fresh_id,
                true,
                src_ip,
                is_v4,
                now_secs,
                interval,
            );
            let t = store::known(torrents, s.hashes.subrange(20 * i, 20 * i + 20));
            &&& h.torrents == torrents
            &&& h.action == Action::Reply(h.out.len() as usize)
            &&& h.out.len() == 8 + 12 * (s.hashes.len() / 20)
            &&& udp::field(h.out, 0, 4) == 2
            &&& udp::field(h.out, 4, 8) == s.transaction_id
            &&& udp::field(h.out, 8 + 12 * i, 12 + 12 * i) == all_seeders(t)
            &&& udp::field(h.out, 12 + 12 * i, 16 + 12 * i) == t.v4.downloaded + t.v6.downloaded
            &&& udp::field(h.out, 16 + 12 * i, 20 + 12 * i) == all_peers(t) - all_seeders(t)
        }),
{
    broadcast use wire::be_bytes_len;

    let hash = s.hashes.subrange(20 * i, 20 * i + 20);
    let t = store::known(torrents, hash);
    let entries = udp_handler::scraped(torrents, udp::strides(s.hashes));
    assert(udp::strides(s.hashes)[i] =~= hash);
    udp::scrape_reply_reads_back(s.transaction_id, entries, i);
    udp::scrape_entries_len(entries);
    if !torrents.contains_key(hash) {
        store_laws::unknown_torrent_counts_nothing(torrents, hash);
    }
    store_laws::counters_cover_both_families(t);
    swarm::seeders_are_by_flag(t.v4.peers);
    swarm::seeders_are_by_flag(t.v6.peers);
}

/// A client that reports a completed download raises the downloads of the torrent by one the first
/// time, and not again.
pub proof fn completion_raises_downloads(
    torrents: Map<Seq<u8>, TorrentView>,
    p: udp_handler::PeerReport,
    now: u32,
)
    requires
        !p.stopped,
        p.flags & 0x80 != 0,
        p.flags & 0x40 != 0,
        ({
            let t = store::known(torrents, p.hash);
            t.v4.downloaded + t.v6.downloaded < 0xffff_ffff
        }),
    ensures
        ({
            let before = udp_handler::counts_in(torrents, p.hash).downloaded;
            let after = udp_handler::counts_in(
                udp_handler::reported(torrents, p, now),
                p.hash,
            ).downloaded;
            let own = family(store::known(torrents, p.hash), p.is_v4).peers;
            after == before + (if own.contains_key(p.key) && own[p.key].flags & 0x40 != 0 {
                0int
            } else {
                1
            })
        }),
{
    let t = store::known(torrents, p.hash);
    swarm::completion_is_recorded_once(t.v4, p.key, p.flags, now);
    swarm::completion_is_recorded_once(t.v6, p.key, p.flags, now);
}

/// A connecting client is given the fresh connection id with its own transaction id, and nothing
/// is stored.
pub proof fn connect_is_answered(
    torrents: Map<Seq<u8>, TorrentView>,
    out: Seq<u8>,
    transaction_id: u32,
    fresh_id: u64,
    admitted: bool,
    src_ip: Seq<u8>,
    is_v4: bool,
    now_secs: u64,
    interval: u32,
)
    ensures
        ({
            let h = udp_handler::responded(
                torrents,
                out,
                RequestView::Connect { transaction_id },
                fresh_id,
                admitted,
                src_ip,
                is_v4,
                now_secs,
                interval,
            );
            &&& h.torrents == torrents
            &&& h.action == Action::Reply(16)
            &&& h.out.len() == 16
            &&& udp::field(h.out, 0, 4) == 0
            &&& udp::field(h.out, 4, 8) == transaction_id
            &&& udp::field(h.out, 8, 16) == fresh_id
        }),
{
    udp::connect_reply_reads_back(transaction_id, fresh_id);
}

/// A request whose connection id is not accepted gets no reply and changes nothing, whatever it
/// asks.
pub proof fn refused_request_changes_nothing(
    torrents: Map<Seq<u8>, TorrentView>,
    out: Seq<u8>,
    request: RequestView,
    fresh_id: u64,
    src_ip: Seq<u8>,
    is_v4: bool,
    now_secs: u64,
    interval: u32,
)
    requires
        request !is Connect,
    ensures
        ({
            let h = udp_handler::responded(
                torrents,
                out,
                request,
                fresh_id,
                false,
                src_ip,
                is_v4,
                now_secs,
                interval,
            );
            h.torrents == torrents && h.out == out && h.action is ConnidMismatch
        }),
{
}

/// A datagram is malformed and dropped, or it is responded to as what it says.
pub proof fn malformed_datagram_is_dropped(
    connid: ConnId,
    torrents: Map<Seq<u8>, TorrentView>,
    out: Seq<u8>,
    buf: Seq<u8>,
    src_ip: Seq<u8>,
    is_v4: bool,
    now_secs: u64,
    interval: u32,
)
    ensures
        (udp_handler::handled(
            connid,
            torrents,
            out,
            buf,
            src_ip,
            is_v4,
            now_secs,
            interval,
        ).action is Drop) == (udp::request_of(buf) is Err),
{
}

/// An announce or a scrape is let in exactly if it carries the id that its address was or would be
/// given in the current window or in the one before; the answer to a connect is that of the current
/// window.
pub proof fn ids_are_checked(
    connid: ConnId,
    torrents: Map<Seq<u8>, TorrentView>,
    out: Seq<u8>,
    buf: Seq<u8>,
    src_ip: Seq<u8>,
    is_v4: bool,
    now_secs: u64,
    interval: u32,
)
    requires
        connid.window_secs() > 0,
        udp::request_of(buf) is Ok,
    ensures
        ({
            let w = connid.window_secs() as nat;
            let h = udp_handler::handled(
                connid,
                torrents,
                out,
                buf,
                src_ip,
                is_v4,
                now_secs,
                interval,
            );
            let id = udp::field(buf, 0, 8);
            let window = now_secs as nat / w;
            let known = id == connid::window_id(connid.key(), src_ip, window) || window > 0 && id
                == connid::window_id(connid.key(), src_ip, (window - 1) as nat);
            if udp::field(buf, 8, 12) == 0 {
                &&& h.action == Action::Reply(16)
                &&& udp::field(h.out, 8, 16) == connid::window_id(connid.key(), src_ip, window)
            } else {
                &&& h.action is Reply <==> known
                &&& h.action is ConnidMismatch <==> !known
            }
        }),
{
    reveal_with_fuel(wire::pow256, 9);
    wire::be_nat_bound(buf.subrange(0, 8));
    if let Ok(RequestView::Connect { transaction_id }) = udp::request_of(buf) {
        let fresh = connid::issued(
            connid.key(),
            connid.window_secs() as nat,
            src_ip,
            now_secs as nat,
        );
        connect_is_answered(
            torrents,
            out,
            transaction_id,
            fresh,
            true,
            src_ip,
            is_v4,
            now_secs,
            interval,
        );
    }
}

} // verus!

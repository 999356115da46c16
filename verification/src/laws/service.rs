//! What holds of the decisions around the handlers.

use vstd::prelude::*;

use crate::addr;
use crate::addr::IpView;
use crate::connid::ConnId;
use crate::http::ResponseView;
use crate::l7;
use crate::l7::detector;
use crate::l7::detector::{DetectorView, Signal};
use crate::l7::Verdict;
use crate::laws::metrics::next;
use crate::laws::udp as udp_laws;
use crate::metrics::{Counter, Metrics};
use crate::service;
use crate::service::{BanOrder, ReplyView, Switches};
use crate::store::TorrentView;
use crate::text;
use crate::udp;
use crate::udp::{ParseError, RequestView};
use crate::udp_handler;
use crate::udp_handler::{Action, Handled};
use crate::wire;

verus! {

/// The clock counts seconds up to the last that fits 32 bits, and stays there.
pub proof fn clock_stops_at_its_end(now: u64)
    ensures
        now <= 0xffff_ffff ==> service::secs(now) == now,
        now >= 0xffff_ffff ==> service::secs(now) == 0xffff_ffff,
{
}

/// A datagram is counted once. One that is dropped counts as dropped, one with a connection id
/// that is not accepted as a mismatch, and any other by its request.
#[verifier::rlimit(50)]
pub proof fn datagram_is_counted_by_its_fate(
    m: Metrics,
    parsed: Result<RequestView, ParseError>,
    n: usize,
)
    ensures
        m.plus(service::udp_counter(parsed, Action::Drop)) == (Metrics {
            udp_dropped: next(m.udp_dropped),
            ..m
        }),
        m.plus(service::udp_counter(parsed, Action::ConnidMismatch)) == (Metrics {
            udp_connid_mismatch: next(m.udp_connid_mismatch),
            ..m
        }),
        m.plus(service::udp_counter(parsed, Action::Reply(n))) == (match parsed {
            Ok(RequestView::Connect { .. }) => Metrics { udp_connects: next(m.udp_connects), ..m },
            Ok(RequestView::Announce(_)) => Metrics { udp_announces: next(m.udp_announces), ..m },
            Ok(RequestView::Scrape(_)) => Metrics { udp_scrapes: next(m.udp_scrapes), ..m },
            Err(_) => Metrics { udp_dropped: next(m.udp_dropped), ..m },
        }),
{
}

/// A source that is allowed changes nothing. A ban counts as flagged; where bans are written it
/// counts as a ban and orders its duration and tier; above the first tier it counts as escalated.
#[verifier::rlimit(50)]
pub proof fn ban_is_counted_and_ordered(m: Metrics, duration: u32, tier: u32, nft_enable: bool)
    ensures
        service::verdict_counted(m, Verdict::Allow, nft_enable) == m,
        service::order_of(Verdict::Allow, nft_enable) is None,
        service::verdict_counted(m, Verdict::Ban { duration, tier }, nft_enable) == (Metrics {
            l7_flagged: next(m.l7_flagged),
            l7_bans: if nft_enable {
                next(m.l7_bans)
            } else {
                m.l7_bans
            },
            l7_bans_escalated: if tier > 0 {
                next(m.l7_bans_escalated)
            } else {
                m.l7_bans_escalated
            },
            ..m
        }),
        service::order_of(Verdict::Ban { duration, tier }, nft_enable) == (if nft_enable {
            Some(BanOrder { duration, tier })
        } else {
            None
        }),
{
    let flagged = m.plus(Counter::L7Flagged);
    assert(flagged == Metrics { l7_flagged: next(m.l7_flagged), ..m });
    let banned = flagged.plus(Counter::L7Ban);
    assert(banned == Metrics { l7_bans: next(flagged.l7_bans), ..flagged });
    let before = if nft_enable {
        banned
    } else {
        flagged
    };
    let escalated = before.plus(Counter::L7BanEscalated);
    assert(escalated == Metrics {
        l7_bans_escalated: next(before.l7_bans_escalated),
        ..before
    });
}

/// A banned source is not replied to; nothing else that was decided changes.
pub proof fn banned_source_gets_no_reply(action: Action, duration: u32, tier: u32, n: usize)
    ensures
        service::with_verdict(action, Verdict::Allow) == action,
        service::with_verdict(Action::Reply(n), Verdict::Ban { duration, tier }) == Action::Drop,
        service::with_verdict(Action::Drop, Verdict::Ban { duration, tier }) == Action::Drop,
        service::with_verdict(Action::ConnidMismatch, Verdict::Ban { duration, tier })
            == Action::ConnidMismatch,
{
}

/// The size of a swarm is read from an announce reply as its leechers and seeders together, and
/// stops at the last number that fits. A shorter reply tells of none.
pub proof fn swarm_is_leechers_and_seeders(
    head: Seq<u8>,
    leechers: u32,
    seeders: u32,
    rest: Seq<u8>,
    short: Seq<u8>,
)
    requires
        head.len() == 12,
        short.len() < 20,
    ensures
        ({
            let reply = head + wire::be_bytes(leechers as nat, 4) + wire::be_bytes(
                seeders as nat,
                4,
            ) + rest;
            service::reply_swarm(reply) == (if leechers + seeders <= 0xffff_ffff {
                leechers + seeders
            } else {
                0xffff_ffff
            })
        }),
        service::reply_swarm(short) == 0,
{
    broadcast use wire::be_bytes_len;

    let reply = head + wire::be_bytes(leechers as nat, 4) + wire::be_bytes(seeders as nat, 4)
        + rest;
    assert(reply.subrange(12, 16) =~= wire::be_bytes(leechers as nat, 4));
    assert(reply.subrange(16, 20) =~= wire::be_bytes(seeders as nat, 4));
    udp_laws::widths_read_back(0, leechers, 0);
    udp_laws::widths_read_back(0, seeders, 0);
}

/// The detector is told of an announce what stands in the datagram, the address and key that the
/// client declared among it.
pub proof fn announce_tells_the_detector(
    connection_id: u64,
    transaction_id: u32,
    info_hash: Seq<u8>,
    peer_id: Seq<u8>,
    downloaded: u64,
    left: u64,
    uploaded: u64,
    event: u32,
    address: u32,
    key: u32,
    num_want: u32,
    port: u16,
    ip: IpView,
    n: usize,
    reply: Seq<u8>,
)
    requires
        info_hash.len() == 20,
        peer_id.len() == 20,
    ensures
        ({
            let buf = udp_laws::announce_bytes(
                connection_id,
                transaction_id,
                info_hash,
                peer_id,
                downloaded,
                left,
                uploaded,
                event,
                address,
                key,
                num_want,
                port,
            );
            &&& service::signal_of(buf, ip, Action::Reply(n), reply) matches Some(
                Signal::Announce(a),
            ) && {
                &&& a.info_hash == info_hash
                &&& a.peer_id == peer_id
                &&& a.key == key
                &&& a.declared_ip == address
                &&& a.port == port
                &&& a.left == left
                &&& a.downloaded == downloaded
                &&& a.uploaded == uploaded
                &&& a.num_want == (if num_want < 0x8000_0000 {
                    num_want as int
                } else {
                    num_want - 0x1_0000_0000
                })
                &&& a.source_is_public == addr::public(ip)
                &&& a.swarm_peers == service::reply_swarm(reply)
            }
            &&& service::signal_of(buf, ip, Action::ConnidMismatch, reply) == Some(
                Signal::ConnidMismatch,
            )
        }),
{
    broadcast use wire::be_bytes_len;

    let buf = udp_laws::announce_bytes(
        connection_id,
        transaction_id,
        info_hash,
        peer_id,
        downloaded,
        left,
        uploaded,
        event,
        address,
        key,
        num_want,
        port,
    );
    let none: Seq<u8> = Seq::empty();
    assert(buf + none =~= buf);
    udp_laws::announce_is_understood(
        connection_id,
        transaction_id,
        info_hash,
        peer_id,
        downloaded,
        left,
        uploaded,
        event,
        address,
        key,
        num_want,
        port,
        none,
    );
    assert(buf.subrange(84, 88) =~= wire::be_bytes(address as nat, 4));
    assert(buf.subrange(88, 92) =~= wire::be_bytes(key as nat, 4));
    udp_laws::widths_read_back(0, address, 0);
    udp_laws::widths_read_back(0, key, 0);
}

/// The detector is told of a scrape how many torrents it asks for, of a connect that it came, and
/// nothing of what is malformed.
pub proof fn other_datagrams_tell_the_detector(
    connection_id: u64,
    transaction_id: u32,
    hashes: Seq<u8>,
    buf: Seq<u8>,
    ip: IpView,
    n: usize,
    reply: Seq<u8>,
)
    ensures
        service::signal_of(
            wire::be_bytes(connection_id as nat, 8) + wire::be_bytes(2, 4) + wire::be_bytes(
                transaction_id as nat,
                4,
            ) + hashes,
            ip,
            Action::Reply(n),
            reply,
        ) == Some(
            Signal::Scrape(
                if hashes.len() / 20 <= 75 {
                    hashes.len() / 20
                } else {
                    75
                },
            ),
        ),
        service::signal_of(
            wire::be_bytes(0x417_2710_1980, 8) + wire::be_bytes(0, 4) + wire::be_bytes(
                transaction_id as nat,
                4,
            ),
            ip,
            Action::Reply(n),
            reply,
        ) == Some(Signal::Connect),
        udp::request_of(buf) is Err ==> service::signal_of(buf, ip, Action::Drop, reply) is None,
{
    let none: Seq<u8> = Seq::empty();
    udp_laws::scrape_is_understood(connection_id, transaction_id, hashes, 0);
    udp_laws::connect_is_understood(0x417_2710_1980, transaction_id, none);
    let connect = wire::be_bytes(0x417_2710_1980, 8) + wire::be_bytes(0, 4) + wire::be_bytes(
        transaction_id as nat,
        4,
    );
    assert(connect + none =~= connect);
}

/// A datagram from an IPv4 address is handled as one of IPv4 under the address after ten zero
/// bytes and two of ones, also where it came over an IPv6 socket. One from any other IPv6 address
/// is handled under that.
pub proof fn source_decides_the_family(
    connid: ConnId,
    torrents: Map<Seq<u8>, TorrentView>,
    out: Seq<u8>,
    buf: Seq<u8>,
    four: Seq<u8>,
    six: Seq<u8>,
    now: u64,
    interval: u32,
)
    requires
        four.len() == 4,
        six.len() == 16,
        six[0] != 0,
    ensures
        ({
            let mapped = seq![0u8, 0, 0, 0, 0, 0, 0, 0, 0, 0, 0xff, 0xff] + four;
            let of_v4 = udp_handler::handled(
                connid,
                torrents,
                out,
                buf,
                mapped,
                true,
                now,
                interval,
            );
            &&& service::datagram_handled(
                connid,
                torrents,
                out,
                buf,
                IpView::V4(four),
                now,
                interval,
            ) == of_v4
            &&& service::datagram_handled(
                connid,
                torrents,
                out,
                buf,
                IpView::V6(mapped),
                now,
                interval,
            ) == of_v4
        }),
        service::datagram_handled(connid, torrents, out, buf, IpView::V6(six), now, interval)
            == udp_handler::handled(connid, torrents, out, buf, six, false, now, interval),
{
    let mapped = seq![0u8, 0, 0, 0, 0, 0, 0, 0, 0, 0, 0xff, 0xff] + four;
    crate::laws::addr::mapped_addresses_are_v4(mapped, four);
    crate::laws::addr::mapped_addresses_are_v4(six, four);
    assert(mapped.skip(12) =~= four);
    assert(addr::as_16(IpView::V4(four)) =~= mapped);
    assert(exists|i: int| 0 <= i < 10 && #[trigger] six[i] != 0) by {
        assert(six[0] != 0);
    }
}

/// With the detector switched off every source is allowed and nothing is remembered. Switched on,
/// it hears of the source under the address that it is handled under, at the second.
pub proof fn detector_is_asked_where_enabled(
    config: l7::Config,
    d: DetectorView,
    nft_enable: bool,
    buf: Seq<u8>,
    source: IpView,
    h: Handled,
    now: u64,
)
    ensures
        service::datagram_judged(
            config,
            d,
            (Switches { l7_enable: false, nft_enable }),
            buf,
            source,
            h,
            now,
        ) == (d, Verdict::Allow),
        ({
            let ip = addr::canonical(source);
            let at: u32 = if now <= 0xffff_ffff {
                now as u32
            } else {
                0xffff_ffff
            };
            service::datagram_judged(
                config,
                d,
                (Switches { l7_enable: true, nft_enable }),
                buf,
                source,
                h,
                now,
            ) == (match service::signal_of(buf, ip, h.action, h.out) {
                Some(s) => detector::fed(config, d, addr::as_16(ip), s, at),
                None => (d, Verdict::Allow),
            })
        }),
{
}

/// Each kind of response has its status: a body comes with 200, a redirect with 302 and where it
/// leads, a bad request with 400, an unknown path with 404.
pub proof fn responses_have_their_status(body: Seq<u8>, url: Seq<char>)
    ensures
        service::reply_of(ResponseView::Body(body), Some(url)) == (ReplyView {
            status: 200,
            location: None,
            body,
        }),
        service::reply_of(ResponseView::Redirect, Some(url)) == (ReplyView {
            status: 302,
            location: Some(url),
            body: Seq::empty(),
        }),
        service::reply_of(ResponseView::BadRequest, Some(url)) == (ReplyView {
            status: 400,
            location: None,
            body: seq![0x34u8, 0x30, 0x30],
        }),
        service::reply_of(ResponseView::NotFound, Some(url)) == (ReplyView {
            status: 404,
            location: None,
            body: seq![0x34u8, 0x30, 0x34],
        }),
{
    reveal_strlit("400");
    reveal_strlit("404");
    vstd::utf8::is_ascii_chars_encode_utf8("400"@);
    vstd::utf8::is_ascii_chars_encode_utf8("404"@);
    assert(text::utf8("400"@) =~= seq![0x34u8, 0x30, 0x30]);
    assert(text::utf8("404"@) =~= seq![0x34u8, 0x30, 0x34]);
}

/// A request that is answered with a body counts as an announce or a scrape by its path; one that
/// is turned away counts as an error and as neither; a redirect counts as nothing.
#[verifier::rlimit(50)]
pub proof fn answers_are_counted_by_path(m: Metrics, rest: Seq<u8>, body: Seq<u8>)
    ensures
        ({
            let announce = text::utf8("/announce"@) + rest;
            let scrape = text::utf8("/scrape"@) + rest;
            &&& service::kind_counted(m, announce, ResponseView::Body(body)) == (Metrics {
                http_announces: next(m.http_announces),
                ..m
            })
            &&& service::kind_counted(m, scrape, ResponseView::Body(body)) == (Metrics {
                http_scrapes: next(m.http_scrapes),
                ..m
            })
            &&& service::http_counted(m, announce, ResponseView::BadRequest) == (Metrics {
                errors: next(m.errors),
                ..m
            })
            &&& service::http_counted(m, rest, ResponseView::NotFound) == (Metrics {
                errors: next(m.errors),
                ..m
            })
            &&& service::http_counted(m, rest, ResponseView::Redirect) == m
        }),
{
    let announce = text::utf8("/announce"@) + rest;
    let scrape = text::utf8("/scrape"@) + rest;
    reveal_strlit("/announce");
    reveal_strlit("/scrape");
    vstd::utf8::is_ascii_chars_encode_utf8("/announce"@);
    vstd::utf8::is_ascii_chars_encode_utf8("/scrape"@);
    assert(announce.take(text::utf8("/announce"@).len() as int) =~= text::utf8("/announce"@));
    assert(scrape.take(text::utf8("/scrape"@).len() as int) =~= text::utf8("/scrape"@));
    assert(scrape[1] == 0x73 && text::utf8("/announce"@)[1] == 0x61);
    assert(scrape.take(9)[1] == scrape[1] || scrape.len() < 9);
}

} // verus!

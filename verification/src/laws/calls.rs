//! What holds of the functions that callers outside the library start from, whatever they give
//! back.

use vstd::prelude::*;

use crate::addr;
use crate::addr::{IpAddr, IpView};
use crate::chars;
use crate::config;
use crate::config::{Config, ParseError};
use crate::decimal;
use crate::http;
use crate::http::HttpHandler;
use crate::l7;
use crate::l7::detector;
use crate::l7::{Detector, Verdict};
use crate::laws::addr as addr_laws;
use crate::laws::chars as chars_laws;
use crate::laws::config as config_laws;
use crate::laws::metrics as metrics_laws;
use crate::laws::service as service_laws;
use crate::laws::store as store_laws;
use crate::laws::swarm;
use crate::laws::text as text_laws;
use crate::laws::udp as udp_laws;
use crate::metrics::{Gauges, Metrics};
use crate::nft::BanSets;
use crate::peers::PeerList;
use crate::service;
use crate::service::{BanOrder, HttpReply, Switches};
use crate::store::{Counts, Store, Totals};
use crate::text;
use crate::udp;
use crate::udp_handler::{Action, Handler};
use crate::version;
use crate::wire;
use crate::InfoHash;

verus! {

/// A ban goes to the set of the address's family.
pub proof fn ban_goes_to_the_set_of_its_family(sets: &BanSets, ip: IpAddr, set: &str)
    requires
        call_ensures(BanSets::set_for, (sets, ip), set),
    ensures
        ip is V4 ==> set@ == sets.set4@,
        ip is V6 ==> set@ == sets.set6@,
{
}

/// Gauges are the totals of the store and the sizes of the detector's records.
pub proof fn gauges_are_totals(totals: Totals, sources: usize, offenders: usize, g: Gauges)
    requires
        call_ensures(service::gauges, (totals, sources, offenders), g),
    ensures
        g.torrents == totals.torrents,
        g.seeders == totals.seeders,
        g.leechers == totals.leechers,
        g.l7_tracked == sources,
        g.l7_offenders == offenders,
{
}

/// There are as many workers as configured, and never none.
pub proof fn there_is_a_worker(c: &Config, workers: usize)
    requires
        call_ensures(Config::workers, (c,), workers),
    ensures
        workers >= 1,
        c.udp_workers >= 1 ==> workers == c.udp_workers,
        c.udp_workers == 0 ==> workers == 1,
{
}

/// Announce intervals are of at least 27 and less than 33 minutes.
pub proof fn interval_is_about_half_an_hour(interval: u32)
    requires
        call_ensures(service::announce_interval, (), interval),
    ensures
        27 * 60 <= interval < 33 * 60,
{
}

/// The weights fit if what an announce can add at most fits 32 bits.
pub proof fn weights_fit_together(c: &l7::Config, fit: bool)
    requires
        call_ensures(l7::Config::weights_fit, (c,), fit),
    ensures
        fit <==> c.weight_bad_key + c.weight_declared_ip + c.weight_bad_port + c.weight_fake_seeder
            + c.weight_numwant + c.weight_interval + c.weight_key_churn + c.weight_peerid_churn
            + c.weight_peerid + c.weight_empty_swarm + c.weight_breadth <= 0xffff_ffff,
{
}

/// Torrents are counted.
pub proof fn torrents_are_counted(s: &Store, n: usize)
    requires
        call_ensures(Store::torrent_count, (s,), n),
        s@.len() <= usize::MAX,
    ensures
        n == s@.len(),
{
    vstd::arithmetic::div_mod::lemma_small_mod(s@.len(), usize::MAX as nat + 1);
}

/// A scrape counts the seeders and the leechers of both families, and the downloads of both.
pub proof fn scrape_counts_everyone(s: &Store, hash: &InfoHash, c: Counts)
    requires
        call_ensures(Store::scrape, (s, hash), c),
        s@.contains_key(hash@),
        s@[hash@].valid(),
    ensures
        ({
            let t = s@[hash@];
            let seeders = swarm::top_bit_set(t.v4.peers).len() + swarm::top_bit_set(
                t.v6.peers,
            ).len();
            let everyone = t.v4.peers.len() + t.v6.peers.len();
            &&& c.complete == seeders % 0x1_0000_0000
            &&& c.incomplete == (everyone - seeders) % 0x1_0000_0000
            &&& c.downloaded == (t.v4.downloaded + t.v6.downloaded) % 0x1_0000_0000
        }),
{
    store_laws::counters_are_of_32_bits(s@[hash@]);
}

/// Expiry drops exactly the peers that were not seen for the timeout, and changes no other; the
/// recorded downloads stay.
pub proof fn expiry_drops_the_unseen<const N: usize>(
    p: &mut PeerList<N>,
    now: u32,
    timeout: u32,
    k: Seq<u8>,
)
    requires
        call_ensures(PeerList::<N>::expire, (p, now, timeout), ()),
        timeout > 0,
    ensures
        final(p)@.peers.contains_key(k) <==> old(p)@.peers.contains_key(k) && now
            < old(p)@.peers[k].seen + timeout,
        final(p)@.peers.contains_key(k) ==> final(p)@.peers[k] == old(p)@.peers[k],
        final(p)@.downloaded == old(p)@.downloaded,
{
    swarm::expiry_goes_by_age(old(p)@, now, timeout, k);
}

/// Collection drops the peers that were not seen for 45 minutes, and the torrents that have no
/// peer left, no recorded download, and no announce for 24 hours.
pub proof fn collection_forgets(s: &mut Store, now: u32, hash: Seq<u8>, k: Seq<u8>)
    requires
        call_ensures(Store::gc, (s, now), ()),
    ensures
        ({
            let before = old(s)@;
            let after = final(s)@;
            let t = before[hash];
            let recent4 = t.v4.peers.contains_key(k) && now < t.v4.peers[k].seen + 45;
            let recent6 = t.v6.peers.contains_key(k) && now < t.v6.peers[k].seen + 45;
            &&& after.contains_key(hash) ==> before.contains_key(hash)
            &&& before.contains_key(hash) && (recent4 || recent6 || now < t.base + 1440
                || t.v4.downloaded > 0 || t.v6.downloaded > 0) ==> after.contains_key(hash)
            &&& after.contains_key(hash) ==> {
                &&& after[hash].v4.peers.contains_key(k) == recent4
                &&& after[hash].v6.peers.contains_key(k) == recent6
                &&& after[hash].v4.downloaded == t.v4.downloaded
                &&& after[hash].v6.downloaded == t.v6.downloaded
            }
        }),
{
    store_laws::sweep_collects_forgotten_torrents(old(s)@, hash, now);
    if final(s)@.contains_key(hash) {
        store_laws::sweep_drops_stale_peers(old(s)@, hash, k, now);
    }
}

/// The version is a release tag as it is, if there is one.
pub proof fn release_is_reported(
    tag: &str,
    described: Option<&str>,
    package: Option<&str>,
    v: String,
)
    requires
        call_ensures(version::version, (Some(tag), described, package), v),
        tag@.len() >= 2,
        tag@[0] == 'v',
        0x30 <= tag@[1] as u32 <= 0x39,
    ensures
        v@ == tag@,
{
}

/// The metrics page is given to the machine itself alone, and gives the store's totals and the
/// sizes of the detector's records.
pub proof fn metrics_stay_on_the_machine(
    store: &Store,
    d: &Detector,
    m: &Metrics,
    source: IpAddr,
    page: Option<String>,
)
    requires
        call_ensures(service::serve_metrics, (store, d, m, source), page),
    ensures
        page is Some <==> (match source@ {
            IpView::V4(o) => o[0] == 127,
            IpView::V6(o) => wire::be_nat(o) == 1,
        }),
        page matches Some(p) ==> {
            let totals = crate::store::totals_of(store@);
            &&& metrics_laws::stands_in(
                p@,
                metrics_laws::gauge_lines("bf_torrents"@, totals.torrents),
            )
            &&& metrics_laws::stands_in(
                p@,
                metrics_laws::gauge_lines("bf_seeders"@, totals.seeders),
            )
            &&& metrics_laws::stands_in(
                p@,
                metrics_laws::gauge_lines("bf_leechers"@, totals.leechers),
            )
            &&& metrics_laws::stands_in(
                p@,
                metrics_laws::gauge_lines("bf_l7_tracked_sources"@, d@.sources.len() as u64),
            )
            &&& metrics_laws::stands_in(
                p@,
                metrics_laws::gauge_lines("bf_l7_offenders"@, d@.offenders.len() as u64),
            )
            &&& metrics_laws::stands_in(
                p@,
                metrics_laws::counter_lines("bf_udp_announces_total"@, m.udp_announces),
            )
        },
{
    let totals = crate::store::totals_of(store@);
    let g = Gauges {
        torrents: totals.torrents,
        seeders: totals.seeders,
        leechers: totals.leechers,
        l7_tracked: d@.sources.len() as u64,
        l7_offenders: d@.offenders.len() as u64,
    };
    metrics_laws::page_gives_every_metric(*m, g);
    if let IpView::V6(o) = source@ {
        addr_laws::reserved_v6_ranges(o);
    }
}

/// An error reply is its header and its message, and what is behind it in the buffer stays.
pub proof fn error_is_written(out: &mut [u8], transaction_id: u32, message: &[u8], n: usize)
    requires
        call_ensures(udp::write_error, (out, transaction_id, message), n),
        old(out)@.len() >= 8 + message@.len(),
    ensures
        n == 8 + message@.len(),
        final(out)@.len() == old(out)@.len(),
        udp::field(final(out)@, 0, 4) == 3,
        udp::field(final(out)@, 4, 8) == transaction_id,
        final(out)@.subrange(8, n as int) == message@,
        final(out)@.skip(n as int) == old(out)@.skip(n as int),
{
    broadcast use wire::be_bytes_len;

    let reply = udp::error_reply(transaction_id, message@);
    let after = final(out)@;
    udp_laws::error_reply_reads_back(transaction_id, message@);
    assert(after.take(n as int) =~= reply);
    assert(after.subrange(0, 4) =~= reply.subrange(0, 4));
    assert(after.subrange(4, 8) =~= reply.subrange(4, 8));
    assert(after.subrange(8, n as int) =~= reply.skip(8));
    assert(after.skip(n as int) =~= old(out)@.skip(n as int));
}

/// A number is solid text.
proof fn decimal_is_solid(n: nat)
    ensures
        chars_laws::solid(decimal::decimal(n)),
        decimal::decimal(n).len() > 0,
        chars::ascii(decimal::decimal(n)) == text::utf8(decimal::decimal(n)),
        forall|i: int| 0 <= i < decimal::decimal(n).len() ==> #[trigger] decimal::decimal(n)[i]
            != '\n',
{
    decimal::decimal_digits(n);
    let d = decimal::decimal(n);
    assert forall|i: int| 0 <= i < d.len() implies !chars::white(#[trigger] d[i]) by {
        assert('0' <= d[i] <= '9');
        chars_laws::usual_whitespace(d[i]);
    }
    assert(vstd::utf8::is_ascii_chars(d));
    chars_laws::ascii_is_read_as_it_is(d, 0);
}

/// A configuration that sets the window of the connection ids has that window, and the defaults
/// for the rest. One whose window does not fit 32 bits is refused, with its line.
pub proof fn configured_window_is_taken(
    s: &str,
    between: Seq<char>,
    n: nat,
    r: Result<Config, ParseError>,
)
    requires
        call_ensures(config::parse, (s,), r),
        s@ == "udp.connid_window"@ + between + decimal::decimal(n),
        between.len() > 0,
        chars_laws::blank(between),
        forall|i: int| 0 <= i < between.len() ==> #[trigger] between[i] != '\n',
    ensures
        r is Ok <==> n <= 0xffff_ffff,
        r matches Ok(c) ==> {
            &&& c.connid_window == n
            &&& c.udp_workers == 0
            &&& c.udp_listen@.len() == 0
            &&& c.tcp_listen@.len() == 0
            &&& !c.l7_enable
            &&& !c.nft_enable
            &&& c.nft_table@ == "inet filter"@
            &&& c.nft_set4@ == "l7ban4"@
            &&& c.nft_set6@ == "l7ban6"@
        },
        r matches Err(e) ==> e.line == 1,
{
    let key = "udp.connid_window"@;
    let d = decimal::decimal(n);
    let none: Seq<char> = Seq::empty();
    reveal_strlit("udp.connid_window");
    decimal_is_solid(n);
    assert(chars_laws::solid(key)) by {
        assert forall|i: int| 0 <= i < key.len() implies !chars::white(#[trigger] key[i]) by {
            chars_laws::usual_whitespace(key[i]);
        }
    }
    assert forall|i: int| 0 <= i < s@.len() implies #[trigger] s@[i] != '\n' by {
        if i < key.len() {
            assert(s@[i] == key[i]);
        } else if i < key.len() + between.len() {
            assert(s@[i] == between[i - key.len()]);
        } else {
            assert(s@[i] == d[i - key.len() - between.len()]);
        }
    }
    assert(!chars::white(d[0]) && !chars::white(d[d.len() - 1]));
    assert(none + (key + between + d) + none =~= s@);
    config_laws::one_line_is_a_configuration(s@);
    config_laws::line_is_key_and_value(config::defaults(), none, key, between, d, none, 1);
    config_laws::connid_window_directive_sets_the_number(config::defaults(), d, 1);
    text_laws::numbers_are_read(n, 0xffff_ffff);
    if let Ok(c) = r {
        assert(c@.udp_listen.len() == c.udp_listen@.len());
        assert(c@.tcp_listen.len() == c.tcp_listen@.len());
    }
}

/// What a response gives, whatever it is.
#[verifier::rlimit(50)]
proof fn response_gives(
    m: Metrics,
    target: Seq<u8>,
    response: http::ResponseView,
    url: Option<Seq<char>>,
)
    ensures
        ({
            let r = service::reply_of(response, url);
            let after = service::http_counted(m, target, response);
            &&& response matches http::ResponseView::Body(b) ==> r.status == 200 && r.body == b
                && r.location is None
            &&& response is Redirect ==> r.status == 302 && r.body.len() == 0
            &&& response is BadRequest ==> r.status == 400 && r.location is None && after.errors
                == metrics_laws::next(m.errors)
            &&& response is NotFound ==> r.status == 404 && r.location is None && after.errors
                == metrics_laws::next(m.errors)
            &&& after.udp_announces == m.udp_announces
            &&& after.udp_scrapes == m.udp_scrapes
            &&& after.udp_connects == m.udp_connects
            &&& after.udp_dropped == m.udp_dropped
            &&& after.udp_connid_mismatch == m.udp_connid_mismatch
        }),
{
}

/// What the detector counts is not counted under a datagram's own counter.
#[verifier::rlimit(50)]
proof fn fate_is_counted_apart(
    m: Metrics,
    parsed: Result<udp::RequestView, udp::ParseError>,
    action: Action,
)
    ensures
        ({
            let after = m.plus(service::udp_counter(parsed, action));
            after.l7_flagged == m.l7_flagged && after.l7_bans == m.l7_bans
        }),
{
}

/// What a verdict gives, whatever it is.
#[verifier::rlimit(50)]
proof fn verdict_gives(m: Metrics, action: Action, verdict: Verdict, nft_enable: bool)
    ensures
        ({
            let after = service::verdict_counted(m, verdict, nft_enable);
            &&& service::order_of(verdict, nft_enable) matches Some(order) ==> {
                &&& nft_enable
                &&& verdict matches Verdict::Ban { duration, .. } && duration == order.duration
                &&& service::with_verdict(action, verdict) !is Reply
                &&& after.l7_flagged == metrics_laws::next(m.l7_flagged)
                &&& after.l7_bans == metrics_laws::next(m.l7_bans)
            }
            &&& after.l7_flagged == (if verdict is Ban {
                metrics_laws::next(m.l7_flagged)
            } else {
                m.l7_flagged
            })
            &&& !nft_enable ==> service::order_of(verdict, nft_enable) is None
        }),
{
    if let Verdict::Ban { duration, tier } = verdict {
        service_laws::ban_is_counted_and_ordered(m, duration, tier, nft_enable);
    }
}

/// Who is banned, was so by the detector, for the configured time.
proof fn judgement_bans(
    config: l7::Config,
    d: detector::DetectorView,
    switches: Switches,
    buf: Seq<u8>,
    source: IpView,
    h: crate::udp_handler::Handled,
    now: u64,
)
    ensures
        service::datagram_judged(config, d, switches, buf, source, h, now).1 matches Verdict::Ban {
            duration,
            ..
        } ==> switches.l7_enable && duration == config.ban_duration,
        !switches.l7_enable ==> service::datagram_judged(
            config,
            d,
            switches,
            buf,
            source,
            h,
            now,
        ) == (d, Verdict::Allow),
{
}

/// A request over HTTP from an IPv4 address is handled as one of IPv4, at the minute. A body comes
/// with status 200, and what goes wrong is counted.
#[verifier::rlimit(50)]
pub proof fn http_request_is_served(
    handler: &HttpHandler,
    store: &mut Store,
    m: &mut Metrics,
    target: &str,
    source: IpAddr,
    now: u64,
    interval: u32,
    redirect_url: &Option<String>,
    r: HttpReply,
)
    requires
        call_ensures(
            service::serve_http,
            (handler, store, m, target, source, now, interval, redirect_url),
            r,
        ),
        now / 60 <= 0xffff_ffff,
    ensures
        source@ matches IpView::V4(o) ==> {
            let h = http::handled(
                old(store)@,
                text::utf8(target@),
                seq![0u8, 0, 0, 0, 0, 0, 0, 0, 0, 0, 0xff, 0xff] + o,
                true,
                (now / 60) as u32,
                interval,
            );
            &&& final(store)@ == h.torrents
            &&& h.response matches http::ResponseView::Body(b) ==> r.status == 200 && r.body@ == b
                && r.location is None
            &&& h.response is Redirect ==> r.status == 302 && r.body@.len() == 0
            &&& h.response is BadRequest ==> r.status == 400 && r.location is None
                && final(m).errors == metrics_laws::next(old(m).errors)
            &&& h.response is NotFound ==> r.status == 404 && r.location is None && final(m).errors
                == metrics_laws::next(old(m).errors)
        },
        final(m).udp_announces == old(m).udp_announces,
        final(m).udp_scrapes == old(m).udp_scrapes,
        final(m).udp_connects == old(m).udp_connects,
        final(m).udp_dropped == old(m).udp_dropped,
        final(m).udp_connid_mismatch == old(m).udp_connid_mismatch,
{
    let ip = addr::canonical(source@);
    let h = http::handled(
        old(store)@,
        text::utf8(target@),
        addr::as_16(ip),
        service::v4(ip),
        service::secs((now / 60) as u64),
        interval,
    );
    let url = match *redirect_url {
        Some(url) => Some(url@),
        None => None,
    };
    response_gives(*old(m), text::utf8(target@), h.response, url);
}

/// With the detector switched off a datagram from an IPv4 address is answered as the handler
/// answers it, at once, and counted once; nobody is banned and the detector hears nothing.
#[verifier::rlimit(50)]
pub proof fn datagram_is_served_without_detector(
    handler: &Handler,
    store: &mut Store,
    d: &mut Detector,
    m: &mut Metrics,
    switches: Switches,
    buf: &[u8],
    source: IpAddr,
    now: u64,
    interval: u32,
    out: &mut Vec<u8>,
    r: (Action, Option<BanOrder>),
)
    requires
        call_ensures(
            service::serve_datagram,
            (handler, store, d, m, switches, buf, source, now, interval, out),
            r,
        ),
        !switches.l7_enable,
    ensures
        source@ matches IpView::V4(o) ==> {
            let h = crate::udp_handler::handled(
                handler.connid,
                old(store)@,
                old(out)@,
                buf@,
                seq![0u8, 0, 0, 0, 0, 0, 0, 0, 0, 0, 0xff, 0xff] + o,
                true,
                now,
                interval,
            );
            &&& final(store)@ == h.torrents
            &&& final(out)@ == h.out
            &&& r.0 == h.action
        },
        r.1 is None,
        final(d)@ == old(d)@,
        r.0 is Drop ==> *final(m) == (Metrics {
            udp_dropped: metrics_laws::next(old(m).udp_dropped),
            ..*old(m)
        }),
        r.0 is ConnidMismatch ==> *final(m) == (Metrics {
            udp_connid_mismatch: metrics_laws::next(old(m).udp_connid_mismatch),
            ..*old(m)
        }),
{
    let h = service::datagram_handled(
        handler.connid,
        old(store)@,
        old(out)@,
        buf@,
        source@,
        now,
        interval,
    );
    let config = old(d).config();
    judgement_bans(config, old(d)@, switches, buf@, source@, h, now);
    service_laws::datagram_is_counted_by_its_fate(*old(m), udp::request_of(buf@), 0);
    assert(r.0 == h.action);
}

/// A ban is ordered only where both the detector and nft are switched on, with the configured
/// duration, and a source that is banned gets no reply.
#[verifier::rlimit(50)]
pub proof fn banned_datagram_is_not_answered(
    handler: &Handler,
    store: &mut Store,
    d: &mut Detector,
    m: &mut Metrics,
    switches: Switches,
    buf: &[u8],
    source: IpAddr,
    now: u64,
    interval: u32,
    out: &mut Vec<u8>,
    r: (Action, Option<BanOrder>),
)
    requires
        call_ensures(
            service::serve_datagram,
            (handler, store, d, m, switches, buf, source, now, interval, out),
            r,
        ),
    ensures
        r.1 matches Some(order) ==> {
            &&& switches.l7_enable
            &&& switches.nft_enable
            &&& order.duration == old(d).config().ban_duration
            &&& r.0 !is Reply
            &&& final(m).l7_flagged == metrics_laws::next(old(m).l7_flagged)
            &&& final(m).l7_bans == metrics_laws::next(old(m).l7_bans)
        },
        final(m).l7_flagged == old(m).l7_flagged || final(m).l7_flagged == metrics_laws::next(
            old(m).l7_flagged,
        ),
        !switches.l7_enable || !switches.nft_enable ==> r.1 is None,
{
    let h = service::datagram_handled(
        handler.connid,
        old(store)@,
        old(out)@,
        buf@,
        source@,
        now,
        interval,
    );
    let config = old(d).config();
    judgement_bans(config, old(d)@, switches, buf@, source@, h, now);
    let verdict = service::datagram_judged(
        config,
        old(d)@,
        switches,
        buf@,
        source@,
        h,
        now,
    ).1;
    let parsed = udp::request_of(buf@);
    let counted = old(m).plus(service::udp_counter(parsed, h.action));
    fate_is_counted_apart(*old(m), parsed, h.action);
    verdict_gives(counted, h.action, verdict, switches.nft_enable);
}

} // verus!

//! What the runtime decides around the handlers: announce intervals, counters, the L7 feed, HTTP
//! replies, clocks.

use vstd::prelude::*;

use crate::addr;
use crate::addr::{IpAddr, IpView};
use crate::bencode;
use crate::connid::ConnId;
use crate::http;
use crate::http::{HttpHandler, Response, ResponseView};
use crate::l7;
use crate::l7::detector;
use crate::l7::detector::{DetectorView, Signal};
use crate::l7::laws;
use crate::l7::{AnnounceFacts, AnnounceInfo, Detector, Ip, Verdict};
use crate::metrics;
use crate::metrics::{Counter, Gauges, Metrics};
use crate::store;
use crate::store::{Counts, Store, TorrentView, Totals};
use crate::text;
use crate::udp;
use crate::udp::{AnnounceView, ParseError, Request, RequestView};
use crate::udp_handler;
use crate::udp_handler::{Action, Handled, Handler};
use crate::wire;

verus! {

/// The shortest announce interval that is advertised, in seconds.
pub const INTERVAL_MIN: u32 = 1620;

/// How many seconds the jitter spreads announce intervals over.
pub const INTERVAL_SPREAD: u32 = 360;

/// Calls `fastrand::u32` on `0..n`, which gives a number of that range. Which one is left to
/// chance; the call panics on an empty range.
#[verifier::external_body]
fn random_below(n: u32) -> (r: u32)
    requires
        n > 0,
    ensures
        r < n,
{
    fastrand::u32(0..n)
}

/// The announce interval with a given jitter.
pub fn interval_with(jitter: u32) -> (r: u32)
    requires
        jitter < INTERVAL_SPREAD,
    ensures
        r == INTERVAL_MIN + jitter,
{
    INTERVAL_MIN + jitter
}

/// A jittered announce interval, so clients do not come back all at once.
#[must_use]
pub fn announce_interval() -> (r: u32)
    ensures
        INTERVAL_MIN <= r < INTERVAL_MIN + INTERVAL_SPREAD,
{
    interval_with(random_below(INTERVAL_SPREAD))
}

/// A count of seconds on a 32-bit clock, which stops at its last value.
pub open spec fn secs(now: u64) -> u32 {
    if now <= u32::MAX {
        now as u32
    } else {
        u32::MAX
    }
}

/// A count of seconds on a 32-bit clock.
pub fn clock_secs(now: u64) -> (r: u32)
    ensures
        r == secs(now),
{
    if now <= 0xffff_ffff {
        now as u32
    } else {
        u32::MAX
    }
}

/// A count of seconds in minutes on a 32-bit clock, which stops at its last value.
pub fn clock_minutes(now: u64) -> (r: u32)
    ensures
        r == secs((now / 60) as u64),
{
    clock_secs(now / 60)
}

/// What a parse gave.
pub open spec fn parsed_view(parsed: Result<Request<'_>, ParseError>) -> Result<
    RequestView,
    ParseError,
> {
    match parsed {
        Ok(q) => Ok(q@),
        Err(e) => Err(e),
    }
}

/// The counter that a datagram is counted under.
pub open spec fn udp_counter(
    parsed: Result<RequestView, ParseError>,
    action: Action,
) -> Counter {
    match action {
        Action::Drop => Counter::UdpDropped,
        Action::ConnidMismatch => Counter::UdpConnidMismatch,
        Action::Reply(_) => match parsed {
            Ok(RequestView::Connect { .. }) => Counter::UdpConnect,
            Ok(RequestView::Announce(_)) => Counter::UdpAnnounce,
            Ok(RequestView::Scrape(_)) => Counter::UdpScrape,
            Err(_) => Counter::UdpDropped,
        },
    }
}

/// Count a datagram.
pub fn record_udp_metric(
    metrics: &mut Metrics,
    parsed: &Result<Request<'_>, ParseError>,
    action: &Action,
)
    ensures
        *final(metrics) == old(metrics).plus(udp_counter(parsed_view(*parsed), *action)),
{
    match action {
        Action::Drop => {
            metrics.inc(Counter::UdpDropped);
            return;
        },
        Action::ConnidMismatch => {
            metrics.inc(Counter::UdpConnidMismatch);
            return;
        },
        Action::Reply(_) => {},
    }
    match parsed {
        Ok(Request::Connect { .. }) => metrics.inc(Counter::UdpConnect),
        Ok(Request::Announce(_)) => metrics.inc(Counter::UdpAnnounce),
        Ok(Request::Scrape(_)) => metrics.inc(Counter::UdpScrape),
        Err(_) => metrics.inc(Counter::UdpDropped),
    }
}

/// The peers of a swarm as an announce reply gives them: leechers and seeders.
pub open spec fn reply_swarm(reply: Seq<u8>) -> u32 {
    if reply.len() < 20 {
        0
    } else if udp::field(reply, 12, 16) + udp::field(reply, 16, 20) > u32::MAX {
        u32::MAX
    } else {
        (udp::field(reply, 12, 16) + udp::field(reply, 16, 20)) as u32
    }
}

/// The peers of a swarm as an announce reply gives them.
pub fn swarm_peers(reply: &[u8]) -> (r: u32)
    ensures
        r == reply_swarm(reply@),
{
    if reply.len() < 20 {
        return 0;
    }
    let leechers: u32 = wire::be_u32(&reply[12..16]);
    let seeders: u32 = wire::be_u32(&reply[16..20]);
    leechers.saturating_add(seeders)
}

/// What the detector is told of an announce: the datagram, where it came from, and the reply.
pub open spec fn facts_of(
    buf: Seq<u8>,
    a: AnnounceView,
    public: bool,
    reply: Seq<u8>,
) -> AnnounceFacts {
    AnnounceFacts {
        info_hash: a.info_hash,
        peer_id: a.peer_id,
        key: udp::field(buf, 88, 92) as u32,
        declared_ip: udp::field(buf, 84, 88) as u32,
        port: a.port,
        left: a.left,
        downloaded: a.downloaded,
        uploaded: a.uploaded,
        num_want: a.num_want,
        source_is_public: public,
        swarm_peers: reply_swarm(reply),
    }
}

/// What a datagram tells the detector; a malformed one tells it nothing.
pub open spec fn signal_of(
    buf: Seq<u8>,
    ip: IpView,
    action: Action,
    reply: Seq<u8>,
) -> Option<Signal> {
    if action == Action::ConnidMismatch {
        Some(Signal::ConnidMismatch)
    } else {
        match udp::request_of(buf) {
            Ok(RequestView::Announce(a)) => Some(
                Signal::Announce(facts_of(buf, a, addr::public(ip), reply)),
            ),
            Ok(RequestView::Scrape(s)) => Some(Signal::Scrape(udp::strides(s.hashes).len())),
            Ok(RequestView::Connect { .. }) => Some(Signal::Connect),
            Err(_) => None,
        }
    }
}

/// Whether what a signal adds to the score of its source fits 32 bits. Only an announce can fail
/// to: it may add several weights at once.
pub open spec fn score_fits(
    config: l7::Config,
    d: DetectorView,
    ip: Seq<u8>,
    signal: Option<Signal>,
    now_secs: u32,
) -> bool {
    signal matches Some(Signal::Announce(a)) ==> detector::announce_score(
        config,
        detector::client_for(config, d.sources, ip, now_secs),
        a,
        now_secs,
    ) <= u32::MAX
}

/// Where all weights together fit 32 bits, every score does.
pub proof fn fitting_weights_always_fit(
    config: l7::Config,
    d: DetectorView,
    ip: Seq<u8>,
    signal: Option<Signal>,
    now_secs: u32,
)
    requires
        l7::weight_sum(config) <= u32::MAX,
    ensures
        score_fits(config, d, ip, signal, now_secs),
{
    if let Some(Signal::Announce(a)) = signal {
        laws::fitting_weights_never_overflow(
            config,
            detector::client_for(config, d.sources, ip, now_secs),
            a,
            now_secs,
        );
    }
}

/// Feed the L7 detector from a datagram, the handler's verdict on it, and its reply. `now_secs` is
/// the current time in seconds (the L7 clock).
pub fn feed_l7(
    d: &mut Detector,
    buf: &[u8],
    ip: IpAddr,
    ip16: &Ip,
    action: &Action,
    reply: &[u8],
    now_secs: u32,
) -> (r: Verdict)
    requires
        old(d).wf(),
        score_fits(
            old(d).config(),
            old(d)@,
            ip16@,
            signal_of(buf@, ip@, *action, reply@),
            now_secs,
        ),
    ensures
        final(d).wf(),
        final(d).config() == old(d).config(),
        match signal_of(buf@, ip@, *action, reply@) {
            Some(s) => (final(d)@, r) == detector::fed(
                old(d).config(),
                old(d)@,
                ip16@,
                s,
                now_secs,
            ),
            None => final(d)@ == old(d)@ && r == Verdict::Allow,
        },
{
    if let Action::ConnidMismatch = action {
        return d.on_connid_mismatch(ip16, now_secs);
    }
    match udp::parse(buf) {
        Ok(Request::Announce(a)) => {
            let info = AnnounceInfo {
                info_hash: a.info_hash,
                peer_id: a.peer_id,
                key: wire::be_u32(&buf[88..92]),
                declared_ip: wire::be_u32(&buf[84..88]),
                port: a.port,
                left: a.left,
                downloaded: a.downloaded,
                uploaded: a.uploaded,
                num_want: a.num_want,
                source_is_public: addr::is_public(ip),
                swarm_peers: swarm_peers(reply),
            };
            assert(info@ =~= facts_of(buf@, a@, addr::public(ip@), reply@));
            d.on_announce(ip16, &info, now_secs)
        },
        Ok(Request::Scrape(s)) => {
            let hashes = s.iter_hashes();
            d.on_scrape(ip16, hashes.len(), now_secs)
        },
        Ok(Request::Connect { .. }) => d.on_connect(ip16, now_secs),
        Err(_) => Verdict::Allow,
    }
}

/// A ban that is to be written to nft.
#[derive(Debug, Clone, Copy, PartialEq, Eq, Structural)]
pub struct BanOrder {
    /// Element timeout hint, seconds.
    pub duration: u32,
    /// Escalation tier.
    pub tier: u32,
}

/// The ban that a verdict orders.
pub open spec fn order_of(verdict: Verdict, nft_enable: bool) -> Option<BanOrder> {
    match verdict {
        Verdict::Ban { duration, tier } => if nft_enable {
            Some(BanOrder { duration, tier })
        } else {
            None
        },
        Verdict::Allow => None,
    }
}

/// The counters once a verdict is counted: a ban flags the source, bans it into the nft set where
/// that is on, and counts once more where it escalated, as that of a repeat offender.
pub open spec fn verdict_counted(metrics: Metrics, verdict: Verdict, nft_enable: bool) -> Metrics {
    match verdict {
        Verdict::Allow => metrics,
        Verdict::Ban { tier, .. } => {
            let flagged = metrics.plus(Counter::L7Flagged);
            let banned = if nft_enable {
                flagged.plus(Counter::L7Ban)
            } else {
                flagged
            };
            if tier > 0 {
                banned.plus(Counter::L7BanEscalated)
            } else {
                banned
            }
        },
    }
}

/// Count a verdict, and say whether a ban is to be written.
pub fn settle_verdict(metrics: &mut Metrics, verdict: &Verdict, nft_enable: bool) -> (r: Option<
    BanOrder,
>)
    ensures
        r == order_of(*verdict, nft_enable),
        *final(metrics) == verdict_counted(*old(metrics), *verdict, nft_enable),
{
    match verdict {
        Verdict::Ban { duration, tier } => {
            metrics.inc(Counter::L7Flagged);
            if nft_enable {
                metrics.inc(Counter::L7Ban);
            }
            if *tier > 0 {
                metrics.inc(Counter::L7BanEscalated);
            }
            if nft_enable {
                Some(BanOrder { duration: *duration, tier: *tier })
            } else {
                None
            }
        },
        Verdict::Allow => None,
    }
}

/// What is done about a datagram once the verdict is in: a ban denies the source its reply.
pub open spec fn with_verdict(action: Action, verdict: Verdict) -> Action {
    if action is Reply && verdict is Ban {
        Action::Drop
    } else {
        action
    }
}

/// Deny a banned source its reply.
pub fn deny_banned(action: Action, verdict: &Verdict) -> (r: Action)
    ensures
        r == with_verdict(action, *verdict),
{
    match (action, verdict) {
        (Action::Reply(_), Verdict::Ban { .. }) => Action::Drop,
        (action, _) => action,
    }
}

/// Which of the optional parts of the UDP path are on.
#[derive(Debug, Clone, Copy, PartialEq, Eq, Structural)]
pub struct Switches {
    /// Whether the L7 detector is fed.
    pub l7_enable: bool,
    /// Whether bans are written to nft.
    pub nft_enable: bool,
}

/// Whether an address is IPv4.
pub open spec fn v4(ip: IpView) -> bool {
    ip is V4
}

/// What a datagram does to the store and the output buffer, whatever socket it came by: the
/// source is taken by its canonical address.
pub open spec fn datagram_handled(
    connid: ConnId,
    torrents: Map<Seq<u8>, TorrentView>,
    out: Seq<u8>,
    buf: Seq<u8>,
    source: IpView,
    now: u64,
    interval: u32,
) -> Handled {
    let ip = addr::canonical(source);
    udp_handler::handled(connid, torrents, out, buf, addr::as_16(ip), v4(ip), now, interval)
}

/// What the detector makes of a datagram: its memory afterwards, and its verdict.
pub open spec fn datagram_judged(
    config: l7::Config,
    d: DetectorView,
    switches: Switches,
    buf: Seq<u8>,
    source: IpView,
    h: Handled,
    now: u64,
) -> (DetectorView, Verdict) {
    let ip = addr::canonical(source);
    match signal_of(buf, ip, h.action, h.out) {
        Some(s) if switches.l7_enable => detector::fed(
            config,
            d,
            addr::as_16(ip),
            s,
            secs(now),
        ),
        _ => (d, Verdict::Allow),
    }
}

/// Serve one datagram: handle it, count it, feed the detector, and say what to send and whom to
/// ban. A datagram that draws a ban is not answered. `source` is the address it came from, `now`
/// the current second.
pub fn serve_datagram(
    handler: &Handler,
    store: &mut Store,
    d: &mut Detector,
    metrics: &mut Metrics,
    switches: Switches,
    buf: &[u8],
    source: IpAddr,
    now: u64,
    interval: u32,
    out: &mut Vec<u8>,
) -> (r: (Action, Option<BanOrder>))
    requires
        handler.wf(),
        old(store).wf(),
        old(d).wf(),
        switches.l7_enable ==> score_fits(
            old(d).config(),
            old(d)@,
            addr::as_16(addr::canonical(source@)),
            signal_of(
                buf@,
                addr::canonical(source@),
                datagram_handled(
                    handler.connid,
                    old(store)@,
                    old(out)@,
                    buf@,
                    source@,
                    now,
                    interval,
                ).action,
                datagram_handled(
                    handler.connid,
                    old(store)@,
                    old(out)@,
                    buf@,
                    source@,
                    now,
                    interval,
                ).out,
            ),
            secs(now),
        ),
    ensures
        final(store).wf(),
        final(d).wf(),
        final(d).config() == old(d).config(),
        ({
            let h = datagram_handled(
                handler.connid,
                old(store)@,
                old(out)@,
                buf@,
                source@,
                now,
                interval,
            );
            let (after, verdict) = datagram_judged(
                old(d).config(),
                old(d)@,
                switches,
                buf@,
                source@,
                h,
                now,
            );
            &&& final(store)@ == h.torrents
            &&& final(out)@ == h.out
            &&& final(d)@ == after
            &&& *final(metrics) == verdict_counted(
                old(metrics).plus(udp_counter(udp::request_of(buf@), h.action)),
                verdict,
                switches.nft_enable,
            )
            &&& r.0 == with_verdict(h.action, verdict)
            &&& r.1 == order_of(verdict, switches.nft_enable)
        }),
{
    let ip = addr::canonical_ip(source);
    let ip16 = addr::ip_to_16(ip);
    let is_v4: bool = match ip {
        IpAddr::V4(_) => true,
        IpAddr::V6(_) => false,
    };
    let action = handler.handle(store, buf, &ip16, is_v4, now, interval, out);
    let parsed = udp::parse(buf);
    record_udp_metric(metrics, &parsed, &action);
    let verdict = if switches.l7_enable {
        feed_l7(d, buf, ip, &ip16, &action, out.as_slice(), clock_secs(now))
    } else {
        Verdict::Allow
    };
    let order = settle_verdict(metrics, &verdict, switches.nft_enable);
    (deny_banned(action, &verdict), order)
}

/// An HTTP reply, as the runtime sends it.
#[derive(Debug, PartialEq, Eq)]
pub struct HttpReply {
    /// Status code.
    pub status: u16,
    /// Where to redirect to; such a reply has no content type.
    pub location: Option<String>,
    /// The body, `text/plain`.
    pub body: Vec<u8>,
}

/// What an HTTP reply says.
#[verifier::ext_equal]
pub struct ReplyView {
    pub status: u16,
    pub location: Option<Seq<char>>,
    pub body: Seq<u8>,
}

impl View for HttpReply {
    type V = ReplyView;

    open spec fn view(&self) -> ReplyView {
        ReplyView {
            status: self.status,
            location: match self.location {
                Some(l) => Some(l@),
                None => None,
            },
            body: self.body@,
        }
    }
}

/// The counter of the kind of request that a body answers, if any, be it an answer or a failure.
pub open spec fn http_counter(target: Seq<u8>, response: ResponseView) -> Option<Counter> {
    if response is Body {
        if text::begins(target, text::utf8("/announce"@)) {
            Some(Counter::HttpAnnounce)
        } else if text::begins(target, text::utf8("/scrape"@)) {
            Some(Counter::HttpScrape)
        } else {
            None
        }
    } else {
        None
    }
}

/// The counters once the kind of request is counted.
pub open spec fn kind_counted(
    metrics: Metrics,
    target: Seq<u8>,
    response: ResponseView,
) -> Metrics {
    match http_counter(target, response) {
        Some(c) => metrics.plus(c),
        None => metrics,
    }
}

/// Whether a response counts as an error: by its status, or by a body that reports a failure.
pub open spec fn reports_error(response: ResponseView) -> bool {
    match response {
        ResponseView::Body(body) => bencode::is_failure_body(body),
        ResponseView::BadRequest => true,
        ResponseView::NotFound => true,
        ResponseView::Redirect => false,
    }
}

/// The counters after a response: its kind is counted, and besides that an error or a failure.
pub open spec fn http_counted(
    metrics: Metrics,
    target: Seq<u8>,
    response: ResponseView,
) -> Metrics {
    let counted = kind_counted(metrics, target, response);
    if reports_error(response) {
        counted.plus(Counter::Error)
    } else {
        counted
    }
}

/// Whether a response of the tracker tells the client of an error or a failure.
pub open spec fn is_error(response: ResponseView) -> bool {
    ||| response == ResponseView::Body(http::forgot_body())
    ||| response is BadRequest
    ||| response is NotFound
}

/// The error counter counts the requests that are answered with an error or a failure, and no
/// others, whatever else they count as.
pub proof fn errors_are_counted(
    metrics: Metrics,
    torrents: Map<Seq<u8>, TorrentView>,
    target: Seq<u8>,
    src_ip: Seq<u8>,
    is_v4: bool,
    now: u32,
    interval: u32,
)
    ensures
        ({
            let response = http::handled(torrents, target, src_ip, is_v4, now, interval).response;
            let after = http_counted(metrics, target, response);
            let kind = kind_counted(metrics, target, response);
            if is_error(response) {
                &&& after == kind.plus(Counter::Error)
                &&& after.errors == metrics::one_more(metrics.errors)
            } else {
                &&& after == kind
                &&& after.errors == metrics.errors
            }
        }),
{
    let (path, query) = text::cut(target, text::QUESTION);
    let reason = text::utf8("Your client forgot to send your torrent's info_hash."@);
    let none: Seq<(Seq<u8>, Counts)> = Seq::empty();
    bencode::failures_are_told_from_answers(
        reason,
        store::no_counts(),
        0,
        Seq::empty(),
        Seq::empty(),
        none,
    );
    if path == text::utf8("/announce"@) {
        if let Some(p) = http::params_of(http::pairs(query)) {
            if let (Some(hash), Some(port)) = (p.info_hash, p.port) {
                let report = http::report_of(hash, port, p, src_ip, is_v4);
                let after = udp_handler::reported(torrents, report, now);
                let given = udp_handler::peers_in(after, report, p.numwant);
                let (given4, given6) = if is_v4 {
                    (given, Seq::empty())
                } else {
                    (Seq::empty(), given)
                };
                bencode::failures_are_told_from_answers(
                    reason,
                    udp_handler::counts_in(after, hash),
                    interval,
                    given4,
                    given6,
                    none,
                );
            }
        }
    } else if path == text::utf8("/scrape"@) {
        bencode::failures_are_told_from_answers(
            reason,
            store::no_counts(),
            0,
            Seq::empty(),
            Seq::empty(),
            http::files_of(torrents, http::scrape_raws(http::pairs(query))),
        );
    }
}

/// The reply that a response is sent as.
pub open spec fn reply_of(response: ResponseView, redirect_url: Option<Seq<char>>) -> ReplyView {
    match response {
        ResponseView::Body(b) => ReplyView { status: 200, location: None, body: b },
        ResponseView::Redirect => ReplyView {
            status: 302,
            location: Some(
                match redirect_url {
                    Some(url) => url,
                    None => Seq::empty(),
                },
            ),
            body: Seq::empty(),
        },
        ResponseView::BadRequest => ReplyView {
            status: 400,
            location: None,
            body: text::utf8("400"@),
        },
        ResponseView::NotFound => ReplyView {
            status: 404,
            location: None,
            body: text::utf8("404"@),
        },
    }
}

/// A text as bytes.
fn bytes_of(s: &str) -> (r: Vec<u8>)
    ensures
        r@ == text::utf8(s@),
{
    let mut r: Vec<u8> = Vec::new();
    r.extend_from_slice(s.as_bytes());
    assert(r@ =~= text::utf8(s@));
    r
}

/// Count a response, and turn it into the reply that is sent.
pub fn http_reply(
    metrics: &mut Metrics,
    target: &str,
    response: Response,
    redirect_url: &Option<String>,
) -> (r: HttpReply)
    ensures
        r@ == reply_of(
            response@,
            match *redirect_url {
                Some(url) => Some(url@),
                None => None,
            },
        ),
        *final(metrics) == http_counted(*old(metrics), text::utf8(target@), response@),
{
    match response {
        Response::Body(body) => {
            if text::starts_with(target.as_bytes(), "/announce".as_bytes()) {
                metrics.inc(Counter::HttpAnnounce);
            } else if text::starts_with(target.as_bytes(), "/scrape".as_bytes()) {
                metrics.inc(Counter::HttpScrape);
            }
            if bencode::is_failure(body.as_slice()) {
                metrics.inc(Counter::Error);
            }
            HttpReply { status: 200, location: None, body }
        },
        Response::Redirect => {
            let url = match redirect_url {
                Some(url) => url.clone(),
                None => String::new(),
            };
            let body: Vec<u8> = Vec::new();
            let r = HttpReply { status: 302, location: Some(url), body };
            assert(url@ =~= match *redirect_url {
                Some(url) => url@,
                None => Seq::empty(),
            });
            r
        },
        Response::BadRequest => {
            metrics.inc(Counter::Error);
            HttpReply { status: 400, location: None, body: bytes_of("400") }
        },
        Response::NotFound => {
            metrics.inc(Counter::Error);
            HttpReply { status: 404, location: None, body: bytes_of("404") }
        },
    }
}

/// Serve one HTTP request: handle it, count it, and give the reply. `source` is the address it
/// came from, `now` the current second.
pub fn serve_http(
    handler: &HttpHandler,
    store: &mut Store,
    metrics: &mut Metrics,
    target: &str,
    source: IpAddr,
    now: u64,
    interval: u32,
    redirect_url: &Option<String>,
) -> (r: HttpReply)
    requires
        old(store).wf(),
    ensures
        final(store).wf(),
        ({
            let ip = addr::canonical(source@);
            let h = http::handled(
                old(store)@,
                text::utf8(target@),
                addr::as_16(ip),
                v4(ip),
                secs((now / 60) as u64),
                interval,
            );
            &&& final(store)@ == h.torrents
            &&& *final(metrics) == http_counted(*old(metrics), text::utf8(target@), h.response)
            &&& final(metrics).errors == (if is_error(h.response) {
                metrics::one_more(old(metrics).errors)
            } else {
                old(metrics).errors
            })
            &&& r@ == reply_of(
                h.response,
                match *redirect_url {
                    Some(url) => Some(url@),
                    None => None,
                },
            )
        }),
{
    let ip = addr::canonical_ip(source);
    let ip16 = addr::ip_to_16(ip);
    let is_v4: bool = match ip {
        IpAddr::V4(_) => true,
        IpAddr::V6(_) => false,
    };
    proof {
        errors_are_counted(
            *old(metrics),
            store@,
            text::utf8(target@),
            ip16@,
            is_v4,
            secs((now / 60) as u64),
            interval,
        );
    }
    let response = handler.handle(store, target, &ip16, is_v4, clock_minutes(now), interval);
    http_reply(metrics, target, response, redirect_url)
}

/// The gauges of the live state.
#[must_use]
pub fn gauges(totals: Totals, sources: usize, offenders: usize) -> (r: Gauges)
    ensures
        r == (Gauges {
            torrents: totals.torrents,
            seeders: totals.seeders,
            leechers: totals.leechers,
            l7_tracked: sources as u64,
            l7_offenders: offenders as u64,
        }),
{
    Gauges {
        torrents: totals.torrents,
        seeders: totals.seeders,
        leechers: totals.leechers,
        l7_tracked: sources as u64,
        l7_offenders: offenders as u64,
    }
}

/// Serve the metrics page, to the machine itself only: to any other source there is no reply.
pub fn serve_metrics(store: &Store, d: &Detector, metrics: &Metrics, source: IpAddr) -> (r: Option<
    String,
>)
    requires
        store.wf(),
        d.wf(),
    ensures
        match r {
            Some(page) => addr::loopback(source@) && page@ == metrics.exposition(
                (Gauges {
                    torrents: store::totals_of(store@).torrents,
                    seeders: store::totals_of(store@).seeders,
                    leechers: store::totals_of(store@).leechers,
                    l7_tracked: d@.sources.len() as u64,
                    l7_offenders: d@.offenders.len() as u64,
                }),
            ),
            None => !addr::loopback(source@),
        },
{
    if !addr::is_loopback(source) {
        return None;
    }
    Some(metrics.render(gauges(store.totals(), d.tracked_sources(), d.offenders())))
}

} // verus!

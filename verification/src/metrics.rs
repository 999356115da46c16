//! Prometheus/OpenMetrics counters and text exposition.
//!
//! [`Metrics::render`] produces the text exposition format the runtime serves on the metrics
//! endpoint. Gauges (torrents, seeders, leechers, known sources) are sampled at render time and
//! passed in.

use vstd::prelude::*;

use crate::decimal;

verus! {

/// The tracker's counter set.
#[derive(Debug)]
pub struct Metrics {
    /// UDP announces served.
    pub udp_announces: u64,
    /// UDP scrapes served.
    pub udp_scrapes: u64,
    /// UDP connect handshakes served.
    pub udp_connects: u64,
    /// UDP connection-id validation failures.
    pub udp_connid_mismatch: u64,
    /// UDP datagrams dropped as malformed/unknown.
    pub udp_dropped: u64,
    /// HTTP announces served.
    pub http_announces: u64,
    /// HTTP scrapes served.
    pub http_scrapes: u64,
    /// Requests answered with an error/failure.
    pub errors: u64,
    /// Sources flagged by the L7 layer.
    pub l7_flagged: u64,
    /// Sources banned into the nft set by the L7 layer.
    pub l7_bans: u64,
    /// Bans issued above tier 0, i.e. repeat offenders that actually escalated.
    pub l7_bans_escalated: u64,
    /// nft writer errors.
    pub nft_errors: u64,
}

/// A monotonic counter field of [`Metrics`], addressed for `inc`.
#[derive(Debug, Clone, Copy, PartialEq, Eq, Structural)]
pub enum Counter {
    /// [`Metrics::udp_announces`].
    UdpAnnounce,
    /// [`Metrics::udp_scrapes`].
    UdpScrape,
    /// [`Metrics::udp_connects`].
    UdpConnect,
    /// [`Metrics::udp_connid_mismatch`].
    UdpConnidMismatch,
    /// [`Metrics::udp_dropped`].
    UdpDropped,
    /// [`Metrics::http_announces`].
    HttpAnnounce,
    /// [`Metrics::http_scrapes`].
    HttpScrape,
    /// [`Metrics::errors`].
    Error,
    /// [`Metrics::l7_flagged`].
    L7Flagged,
    /// [`Metrics::l7_bans`].
    L7Ban,
    /// [`Metrics::l7_bans_escalated`].
    L7BanEscalated,
    /// [`Metrics::nft_errors`].
    NftError,
}

/// Gauges sampled from live state at render time.
#[derive(Debug, Clone, Copy, PartialEq, Eq, Structural)]
pub struct Gauges {
    /// Torrents currently known.
    pub torrents: u64,
    /// Seeders (complete peers) across all torrents.
    pub seeders: u64,
    /// Leechers (downloading peers) across all torrents.
    pub leechers: u64,
    /// L7 sources currently known.
    pub l7_tracked: u64,
    /// Sources in the L7 escalation registry (repeat offenders).
    pub l7_offenders: u64,
}

impl Default for Gauges {
    fn default() -> (r: Self)
        ensures
            r == (Gauges { torrents: 0, seeders: 0, leechers: 0, l7_tracked: 0, l7_offenders: 0 }),
    {
        Gauges { torrents: 0, seeders: 0, leechers: 0, l7_tracked: 0, l7_offenders: 0 }
    }
}

/// One more of a 64-bit count, which starts over after its last value.
pub open spec fn one_more(n: u64) -> u64 {
    ((n + 1) % 0x1_0000_0000_0000_0000) as u64
}

/// One metric in the text exposition: its type line and its value.
pub open spec fn exposed(name: Seq<char>, kind: Seq<char>, v: u64) -> Seq<char> {
    "# TYPE "@ + name + " "@ + kind + "\n"@ + name + " "@ + decimal::decimal(v as nat) + "\n"@
}

/// One counter in the text exposition.
pub open spec fn counter_text(name: Seq<char>, v: u64) -> Seq<char> {
    exposed(name, "counter"@, v)
}

/// One gauge in the text exposition.
pub open spec fn gauge_text(name: Seq<char>, v: u64) -> Seq<char> {
    exposed(name, "gauge"@, v)
}

impl Metrics {
    /// The value of a counter.
    pub open spec fn value(self, counter: Counter) -> u64 {
        match counter {
            Counter::UdpAnnounce => self.udp_announces,
            Counter::UdpScrape => self.udp_scrapes,
            Counter::UdpConnect => self.udp_connects,
            Counter::UdpConnidMismatch => self.udp_connid_mismatch,
            Counter::UdpDropped => self.udp_dropped,
            Counter::HttpAnnounce => self.http_announces,
            Counter::HttpScrape => self.http_scrapes,
            Counter::Error => self.errors,
            Counter::L7Flagged => self.l7_flagged,
            Counter::L7Ban => self.l7_bans,
            Counter::L7BanEscalated => self.l7_bans_escalated,
            Counter::NftError => self.nft_errors,
        }
    }

    /// The counters with one more of `counter`.
    pub open spec fn plus(self, counter: Counter) -> Metrics {
        match counter {
            Counter::UdpAnnounce => Metrics { udp_announces: one_more(self.udp_announces), ..self },
            Counter::UdpScrape => Metrics { udp_scrapes: one_more(self.udp_scrapes), ..self },
            Counter::UdpConnect => Metrics { udp_connects: one_more(self.udp_connects), ..self },
            Counter::UdpConnidMismatch => Metrics {
                udp_connid_mismatch: one_more(self.udp_connid_mismatch),
                ..self
            },
            Counter::UdpDropped => Metrics { udp_dropped: one_more(self.udp_dropped), ..self },
            Counter::HttpAnnounce => Metrics {
                http_announces: one_more(self.http_announces),
                ..self
            },
            Counter::HttpScrape => Metrics { http_scrapes: one_more(self.http_scrapes), ..self },
            Counter::Error => Metrics { errors: one_more(self.errors), ..self },
            Counter::L7Flagged => Metrics { l7_flagged: one_more(self.l7_flagged), ..self },
            Counter::L7Ban => Metrics { l7_bans: one_more(self.l7_bans), ..self },
            Counter::L7BanEscalated => Metrics {
                l7_bans_escalated: one_more(self.l7_bans_escalated),
                ..self
            },
            Counter::NftError => Metrics { nft_errors: one_more(self.nft_errors), ..self },
        }
    }

    /// The text exposition of the counters.
    pub open spec fn counters_text(self) -> Seq<char> {
        counter_text("bf_udp_announces_total"@, self.udp_announces) + counter_text(
            "bf_udp_scrapes_total"@,
            self.udp_scrapes,
        ) + counter_text("bf_udp_connects_total"@, self.udp_connects) + counter_text(
            "bf_udp_connid_mismatch_total"@,
            self.udp_connid_mismatch,
        ) + counter_text("bf_udp_dropped_total"@, self.udp_dropped) + counter_text(
            "bf_http_announces_total"@,
            self.http_announces,
        ) + counter_text("bf_http_scrapes_total"@, self.http_scrapes) + counter_text(
            "bf_errors_total"@,
            self.errors,
        ) + counter_text("bf_l7_flagged_total"@, self.l7_flagged) + counter_text(
            "bf_l7_bans_total"@,
            self.l7_bans,
        ) + counter_text("bf_l7_bans_escalated_total"@, self.l7_bans_escalated) + counter_text(
            "bf_nft_errors_total"@,
            self.nft_errors,
        )
    }

    /// The text exposition.
    pub open spec fn exposition(self, g: Gauges) -> Seq<char> {
        self.counters_text() + gauge_text("bf_torrents"@, g.torrents) + gauge_text(
            "bf_seeders"@,
            g.seeders,
        ) + gauge_text("bf_leechers"@, g.leechers) + gauge_text(
            "bf_l7_tracked_sources"@,
            g.l7_tracked,
        ) + gauge_text("bf_l7_offenders"@, g.l7_offenders)
    }

    /// A fresh, all-zero counter set.
    #[must_use]
    pub fn new() -> (r: Self)
        ensures
            forall|c: Counter| #[trigger] r.value(c) == 0,
    {
        Metrics {
            udp_announces: 0,
            udp_scrapes: 0,
            udp_connects: 0,
            udp_connid_mismatch: 0,
            udp_dropped: 0,
            http_announces: 0,
            http_scrapes: 0,
            errors: 0,
            l7_flagged: 0,
            l7_bans: 0,
            l7_bans_escalated: 0,
            nft_errors: 0,
        }
    }

    /// Increment a counter by one.
    pub fn inc(&mut self, counter: Counter)
        ensures
            *final(self) == old(self).plus(counter),
    {
        match counter {
            Counter::UdpAnnounce => {
                self.udp_announces = count_up(self.udp_announces);
            },
            Counter::UdpScrape => {
                self.udp_scrapes = count_up(self.udp_scrapes);
            },
            Counter::UdpConnect => {
                self.udp_connects = count_up(self.udp_connects);
            },
            Counter::UdpConnidMismatch => {
                self.udp_connid_mismatch = count_up(self.udp_connid_mismatch);
            },
            Counter::UdpDropped => {
                self.udp_dropped = count_up(self.udp_dropped);
            },
            Counter::HttpAnnounce => {
                self.http_announces = count_up(self.http_announces);
            },
            Counter::HttpScrape => {
                self.http_scrapes = count_up(self.http_scrapes);
            },
            Counter::Error => {
                self.errors = count_up(self.errors);
            },
            Counter::L7Flagged => {
                self.l7_flagged = count_up(self.l7_flagged);
            },
            Counter::L7Ban => {
                self.l7_bans = count_up(self.l7_bans);
            },
            Counter::L7BanEscalated => {
                self.l7_bans_escalated = count_up(self.l7_bans_escalated);
            },
            Counter::NftError => {
                self.nft_errors = count_up(self.nft_errors);
            },
        }
    }

    /// The value of a counter.
    pub fn field(&self, counter: Counter) -> (r: u64)
        ensures
            r == self.value(counter),
    {
        match counter {
            Counter::UdpAnnounce => self.udp_announces,
            Counter::UdpScrape => self.udp_scrapes,
            Counter::UdpConnect => self.udp_connects,
            Counter::UdpConnidMismatch => self.udp_connid_mismatch,
            Counter::UdpDropped => self.udp_dropped,
            Counter::HttpAnnounce => self.http_announces,
            Counter::HttpScrape => self.http_scrapes,
            Counter::Error => self.errors,
            Counter::L7Flagged => self.l7_flagged,
            Counter::L7Ban => self.l7_bans,
            Counter::L7BanEscalated => self.l7_bans_escalated,
            Counter::NftError => self.nft_errors,
        }
    }

    /// Render the OpenMetrics text exposition, sampling `gauges` for the live values.
    #[must_use]
    pub fn render(&self, gauges: Gauges) -> (r: String)
        ensures
            r@ == self.exposition(gauges),
    {
        let mut out = String::new();
        assert(out@ + counter_text("bf_udp_announces_total"@, self.udp_announces) =~= counter_text(
            "bf_udp_announces_total"@,
            self.udp_announces,
        ));
        write_metric(&mut out, "bf_udp_announces_total", "counter", self.udp_announces);
        write_metric(&mut out, "bf_udp_scrapes_total", "counter", self.udp_scrapes);
        write_metric(&mut out, "bf_udp_connects_total", "counter", self.udp_connects);
        write_metric(
            &mut out,
            "bf_udp_connid_mismatch_total",
            "counter",
            self.udp_connid_mismatch,
        );
        write_metric(&mut out, "bf_udp_dropped_total", "counter", self.udp_dropped);
        write_metric(&mut out, "bf_http_announces_total", "counter", self.http_announces);
        write_metric(&mut out, "bf_http_scrapes_total", "counter", self.http_scrapes);
        write_metric(&mut out, "bf_errors_total", "counter", self.errors);
        write_metric(&mut out, "bf_l7_flagged_total", "counter", self.l7_flagged);
        write_metric(&mut out, "bf_l7_bans_total", "counter", self.l7_bans);
        write_metric(&mut out, "bf_l7_bans_escalated_total", "counter", self.l7_bans_escalated);
        write_metric(&mut out, "bf_nft_errors_total", "counter", self.nft_errors);
        write_metric(&mut out, "bf_torrents", "gauge", gauges.torrents);
        write_metric(&mut out, "bf_seeders", "gauge", gauges.seeders);
        write_metric(&mut out, "bf_leechers", "gauge", gauges.leechers);
        write_metric(&mut out, "bf_l7_tracked_sources", "gauge", gauges.l7_tracked);
        write_metric(&mut out, "bf_l7_offenders", "gauge", gauges.l7_offenders);
        out
    }
}

/// Counters are independent: counting one leaves the others as they are.
pub proof fn counters_are_independent(m: Metrics, counter: Counter, other: Counter)
    ensures
        m.plus(counter).value(counter) == one_more(m.value(counter)),
        other != counter ==> m.plus(counter).value(other) == m.value(other),
{
}

impl Default for Metrics {
    fn default() -> (r: Self)
        ensures
            forall|c: Counter| #[trigger] r.value(c) == 0,
    {
        Metrics::new()
    }
}

/// One more of a 64-bit count.
fn count_up(n: u64) -> (r: u64)
    ensures
        r == one_more(n),
{
    n.wrapping_add(1)
}

/// Append one metric to a text exposition.
fn write_metric(out: &mut String, name: &str, kind: &str, v: u64)
    ensures
        final(out)@ == old(out)@ + exposed(name@, kind@, v),
{
    let digits = decimal::format_u64(v);
    let ghost start = out@;
    out.append("# TYPE ");
    out.append(name);
    out.append(" ");
    out.append(kind);
    out.append("\n");
    out.append(name);
    out.append(" ");
    out.append(digits.as_str());
    out.append("\n");
    assert(out@ =~= start + exposed(name@, kind@, v));
}

} // verus!

//! What holds of the counters and of their text exposition.

use vstd::prelude::*;

use crate::decimal;
use crate::metrics;
use crate::metrics::{Counter, Gauges, Metrics};

verus! {

/// One more, or none after the last value that fits.
pub open spec fn next(n: u64) -> u64 {
    if n == 0xffff_ffff_ffff_ffff {
        0
    } else {
        (n + 1) as u64
    }
}

/// Counting raises the counter that is named, by one, and no other.
#[verifier::rlimit(50)]
pub proof fn counting_raises_one_counter(m: Metrics)
    ensures
        m.plus(Counter::UdpAnnounce) == (Metrics { udp_announces: next(m.udp_announces), ..m }),
        m.plus(Counter::UdpScrape) == (Metrics { udp_scrapes: next(m.udp_scrapes), ..m }),
        m.plus(Counter::UdpConnect) == (Metrics { udp_connects: next(m.udp_connects), ..m }),
        m.plus(Counter::UdpConnidMismatch) == (Metrics { udp_connid_mismatch: next(m.udp_connid_mismatch), ..m }),
        m.plus(Counter::UdpDropped) == (Metrics { udp_dropped: next(m.udp_dropped), ..m }),
        m.plus(Counter::HttpAnnounce) == (Metrics { http_announces: next(m.http_announces), ..m }),
        m.plus(Counter::HttpScrape) == (Metrics { http_scrapes: next(m.http_scrapes), ..m }),
        m.plus(Counter::Error) == (Metrics { errors: next(m.errors), ..m }),
        m.plus(Counter::L7Flagged) == (Metrics { l7_flagged: next(m.l7_flagged), ..m }),
        m.plus(Counter::L7Ban) == (Metrics { l7_bans: next(m.l7_bans), ..m }),
        m.plus(Counter::L7BanEscalated) == (Metrics { l7_bans_escalated: next(m.l7_bans_escalated), ..m }),
        m.plus(Counter::NftError) == (Metrics { nft_errors: next(m.nft_errors), ..m }),
{
}

/// Whether `part` stands somewhere in `page`.
#[verifier::opaque]
pub open spec fn stands_in(page: Seq<char>, part: Seq<char>) -> bool {
    exists|i: int|
        #![trigger page.subrange(i, i + part.len())]
        0 <= i && i + part.len() <= page.len() && page.subrange(i, i + part.len()) == part
}

/// The two lines of a counter.
pub open spec fn counter_lines(name: Seq<char>, v: u64) -> Seq<char> {
    "# TYPE "@ + name + " counter\n"@ + name + " "@ + decimal::decimal(v as nat) + "\n"@
}

/// The two lines of a gauge.
pub open spec fn gauge_lines(name: Seq<char>, v: u64) -> Seq<char> {
    "# TYPE "@ + name + " gauge\n"@ + name + " "@ + decimal::decimal(v as nat) + "\n"@
}

/// A text has what it ends with, and what stood in it before.
proof fn growing_keeps(page: Seq<char>, more: Seq<char>)
    ensures
        stands_in(page + more, more),
        forall|part: Seq<char>| #[trigger] stands_in(page, part) ==> stands_in(page + more, part),
{
    reveal(stands_in);
    let longer = page + more;
    let n = page.len() as int;
    assert(longer.subrange(n, n + more.len()) =~= more);
    assert forall|part: Seq<char>| #[trigger] stands_in(page, part) implies stands_in(
        longer,
        part,
    ) by {
        let i = choose|i: int|
            #![trigger page.subrange(i, i + part.len())]
            0 <= i && i + part.len() <= page.len() && page.subrange(i, i + part.len()) == part;
        assert(longer.subrange(i, i + part.len()) =~= page.subrange(i, i + part.len()));
    }
}

/// The texts of a metric are its two lines.
proof fn texts_are_lines(name: Seq<char>, v: u64)
    ensures
        metrics::counter_text(name, v) == counter_lines(name, v),
        metrics::gauge_text(name, v) == gauge_lines(name, v),
{
    reveal_strlit(" ");
    reveal_strlit("\n");
    reveal_strlit("counter");
    reveal_strlit("gauge");
    reveal_strlit(" counter\n");
    reveal_strlit(" gauge\n");
    assert(" "@ + "counter"@ + "\n"@ =~= " counter\n"@);
    assert(" "@ + "gauge"@ + "\n"@ =~= " gauge\n"@);
    assert(metrics::counter_text(name, v) =~= "# TYPE "@ + name + (" "@ + "counter"@ + "\n"@)
        + name + " "@ + decimal::decimal(v as nat) + "\n"@);
    assert(metrics::gauge_text(name, v) =~= "# TYPE "@ + name + (" "@ + "gauge"@ + "\n"@) + name
        + " "@ + decimal::decimal(v as nat) + "\n"@);
}

/// The page gives every counter and every gauge, each under its name with its kind and value.
#[verifier::rlimit(50)]
pub proof fn page_gives_every_metric(m: Metrics, g: Gauges)
    ensures
        stands_in(m.exposition(g), counter_lines("bf_udp_announces_total"@, m.udp_announces)),
        stands_in(m.exposition(g), counter_lines("bf_udp_scrapes_total"@, m.udp_scrapes)),
        stands_in(m.exposition(g), counter_lines("bf_udp_connects_total"@, m.udp_connects)),
        stands_in(m.exposition(g), counter_lines("bf_udp_connid_mismatch_total"@, m.udp_connid_mismatch)),
        stands_in(m.exposition(g), counter_lines("bf_udp_dropped_total"@, m.udp_dropped)),
        stands_in(m.exposition(g), counter_lines("bf_http_announces_total"@, m.http_announces)),
        stands_in(m.exposition(g), counter_lines("bf_http_scrapes_total"@, m.http_scrapes)),
        stands_in(m.exposition(g), counter_lines("bf_errors_total"@, m.errors)),
        stands_in(m.exposition(g), counter_lines("bf_l7_flagged_total"@, m.l7_flagged)),
        stands_in(m.exposition(g), counter_lines("bf_l7_bans_total"@, m.l7_bans)),
        stands_in(m.exposition(g), counter_lines("bf_l7_bans_escalated_total"@, m.l7_bans_escalated)),
        stands_in(m.exposition(g), counter_lines("bf_nft_errors_total"@, m.nft_errors)),
        stands_in(m.exposition(g), gauge_lines("bf_torrents"@, g.torrents)),
        stands_in(m.exposition(g), gauge_lines("bf_seeders"@, g.seeders)),
        stands_in(m.exposition(g), gauge_lines("bf_leechers"@, g.leechers)),
        stands_in(m.exposition(g), gauge_lines("bf_l7_tracked_sources"@, g.l7_tracked)),
        stands_in(m.exposition(g), gauge_lines("bf_l7_offenders"@, g.l7_offenders)),
{
    let none: Seq<char> = Seq::empty();
    texts_are_lines("bf_udp_announces_total"@, m.udp_announces);
    texts_are_lines("bf_udp_scrapes_total"@, m.udp_scrapes);
    texts_are_lines("bf_udp_connects_total"@, m.udp_connects);
    texts_are_lines("bf_udp_connid_mismatch_total"@, m.udp_connid_mismatch);
    texts_are_lines("bf_udp_dropped_total"@, m.udp_dropped);
    texts_are_lines("bf_http_announces_total"@, m.http_announces);
    texts_are_lines("bf_http_scrapes_total"@, m.http_scrapes);
    texts_are_lines("bf_errors_total"@, m.errors);
    texts_are_lines("bf_l7_flagged_total"@, m.l7_flagged);
    texts_are_lines("bf_l7_bans_total"@, m.l7_bans);
    texts_are_lines("bf_l7_bans_escalated_total"@, m.l7_bans_escalated);
    texts_are_lines("bf_nft_errors_total"@, m.nft_errors);
    texts_are_lines("bf_torrents"@, g.torrents);
    texts_are_lines("bf_seeders"@, g.seeders);
    texts_are_lines("bf_leechers"@, g.leechers);
    texts_are_lines("bf_l7_tracked_sources"@, g.l7_tracked);
    texts_are_lines("bf_l7_offenders"@, g.l7_offenders);
    let piece = metrics::counter_text("bf_udp_announces_total"@, m.udp_announces);
    growing_keeps(none, piece);
    assert(none + piece =~= piece);
    let p0 = piece;
    let piece = metrics::counter_text("bf_udp_scrapes_total"@, m.udp_scrapes);
    growing_keeps(p0, piece);
    let p1 = p0 + piece;
    let piece = metrics::counter_text("bf_udp_connects_total"@, m.udp_connects);
    growing_keeps(p1, piece);
    let p2 = p1 + piece;
    let piece = metrics::counter_text("bf_udp_connid_mismatch_total"@, m.udp_connid_mismatch);
    growing_keeps(p2, piece);
    let p3 = p2 + piece;
    let piece = metrics::counter_text("bf_udp_dropped_total"@, m.udp_dropped);
    growing_keeps(p3, piece);
    let p4 = p3 + piece;
    let piece = metrics::counter_text("bf_http_announces_total"@, m.http_announces);
    growing_keeps(p4, piece);
    let p5 = p4 + piece;
    let piece = metrics::counter_text("bf_http_scrapes_total"@, m.http_scrapes);
    growing_keeps(p5, piece);
    let p6 = p5 + piece;
    let piece = metrics::counter_text("bf_errors_total"@, m.errors);
    growing_keeps(p6, piece);
    let p7 = p6 + piece;
    let piece = metrics::counter_text("bf_l7_flagged_total"@, m.l7_flagged);
    growing_keeps(p7, piece);
    let p8 = p7 + piece;
    let piece = metrics::counter_text("bf_l7_bans_total"@, m.l7_bans);
    growing_keeps(p8, piece);
    let p9 = p8 + piece;
    let piece = metrics::counter_text("bf_l7_bans_escalated_total"@, m.l7_bans_escalated);
    growing_keeps(p9, piece);
    let p10 = p9 + piece;
    let piece = metrics::counter_text("bf_nft_errors_total"@, m.nft_errors);
    growing_keeps(p10, piece);
    let p11 = p10 + piece;
    let piece = metrics::gauge_text("bf_torrents"@, g.torrents);
    growing_keeps(p11, piece);
    let p12 = p11 + piece;
    let piece = metrics::gauge_text("bf_seeders"@, g.seeders);
    growing_keeps(p12, piece);
    let p13 = p12 + piece;
    let piece = metrics::gauge_text("bf_leechers"@, g.leechers);
    growing_keeps(p13, piece);
    let p14 = p13 + piece;
    let piece = metrics::gauge_text("bf_l7_tracked_sources"@, g.l7_tracked);
    growing_keeps(p14, piece);
    let p15 = p14 + piece;
    let piece = metrics::gauge_text("bf_l7_offenders"@, g.l7_offenders);
    growing_keeps(p15, piece);
    let p16 = p15 + piece;
}

} // verus!

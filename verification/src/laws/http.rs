//! What holds of the HTTP tracker, from the request target to the bytes of the body.

use vstd::prelude::*;

use crate::bencode;
use crate::http;
use crate::http::{ParamsView, ResponseView};
use crate::laws::bencode as bencode_laws;
use crate::laws::store as store_laws;
use crate::laws::swarm;
use crate::laws::text as text_laws;
use crate::laws::udp as udp_laws;
use crate::peers;
use crate::store;
use crate::store::{Counts, TorrentView};
use crate::text;
use crate::udp_handler;
use crate::Event;

verus! {

/// Queries joined by `&` have the pairs of the one and then those of the other.
pub proof fn queries_join(a: Seq<u8>, b: Seq<u8>)
    ensures
        http::pairs(a + seq![0x26u8] + b) == http::pairs(a) + http::pairs(b),
{
    text_laws::parts_join(a, 0x26, b);
    let nonempty = |p: Seq<u8>| p.len() > 0;
    let pa = text::parts(a, 0x26);
    let pb = text::parts(b, 0x26);
    Seq::filter_distributes_over_add(pa, pb, nonempty);
    assert(http::pairs(a + seq![0x26u8] + b) =~= http::pairs(a) + http::pairs(b));
}

/// `key=value` is one pair, whatever else the value holds; a key alone has an empty value, and
/// nothing is no pair.
pub proof fn pair_is_key_and_value(key: Seq<u8>, value: Seq<u8>)
    requires
        !key.contains(0x3d),
        !key.contains(0x26),
        !value.contains(0x26),
    ensures
        http::pairs(key + seq![0x3du8] + value) == seq![(key, value)],
        key.len() > 0 ==> http::pairs(key) == seq![(key, Seq::<u8>::empty())],
        http::pairs(Seq::empty()) == Seq::<(Seq<u8>, Seq<u8>)>::empty(),
{
    reveal(Seq::filter);
    let nonempty = |p: Seq<u8>| p.len() > 0;
    let s = key + seq![0x3du8] + value;
    assert(!s.contains(0x26)) by {
        if s.contains(0x26) {
            let i = choose|i: int| 0 <= i < s.len() && s[i] == 0x26;
            if i < key.len() {
                assert(key[i] == 0x26);
            } else if i > key.len() {
                assert(value[i - key.len() - 1] == 0x26);
            }
        }
    }
    text_laws::whole_text_is_one_part(s, 0x26);
    text_laws::whole_text_is_one_part(key, 0x26);
    text_laws::whole_text_is_one_part(Seq::empty(), 0x26);
    text_laws::text_splits_at_the_first(key, 0x3d, value);
    one_item(s);
    one_item(key);
    one_item(Seq::empty());
    assert(http::pairs(s) =~= seq![(key, value)]);
    if key.len() > 0 {
        assert(http::pairs(key) =~= seq![(key, Seq::<u8>::empty())]);
    }
    assert(http::pairs(Seq::empty()) =~= Seq::<(Seq<u8>, Seq<u8>)>::empty());
}

/// Of one item, what passes is the item or nothing.
proof fn one_item(s: Seq<u8>)
    ensures
        seq![s].filter(|p: Seq<u8>| p.len() > 0) == (if s.len() > 0 {
            seq![s]
        } else {
            Seq::<Seq<u8>>::empty()
        }),
{
    let nonempty = |p: Seq<u8>| p.len() > 0;
    assert(seq![s] =~= Seq::<Seq<u8>>::empty().push(s));
    Seq::<Seq<u8>>::empty().lemma_filter_push(s, nonempty);
    reveal(Seq::filter);
    assert(Seq::<Seq<u8>>::empty().filter(nonempty) =~= Seq::<Seq<u8>>::empty());
    assert(Seq::<Seq<u8>>::empty().push(s) =~= seq![s]);
}

/// The keys of an announce are told apart.
proof fn keys_differ()
    ensures
        ({
            let h = text::utf8("info_hash"@);
            let p = text::utf8("port"@);
            let l = text::utf8("left"@);
            let e = text::utf8("event"@);
            let c = text::utf8("compact"@);
            let n = text::utf8("numwant"@);
            &&& h.len() == 9 && p.len() == 4 && l.len() == 4 && e.len() == 5 && c.len() == 7
                && n.len() == 7
            &&& p[0] == 'p' as u8 && l[0] == 'l' as u8 && c[0] == 'c' as u8 && n[0] == 'n' as u8
        }),
{
    reveal_strlit("info_hash");
    reveal_strlit("port");
    reveal_strlit("left");
    reveal_strlit("event");
    reveal_strlit("compact");
    reveal_strlit("numwant");
    assert(vstd::utf8::is_ascii_chars("info_hash"@));
    assert(vstd::utf8::is_ascii_chars("port"@));
    assert(vstd::utf8::is_ascii_chars("left"@));
    assert(vstd::utf8::is_ascii_chars("event"@));
    assert(vstd::utf8::is_ascii_chars("compact"@));
    assert(vstd::utf8::is_ascii_chars("numwant"@));
    vstd::utf8::is_ascii_chars_encode_utf8("info_hash"@);
    vstd::utf8::is_ascii_chars_encode_utf8("port"@);
    vstd::utf8::is_ascii_chars_encode_utf8("left"@);
    vstd::utf8::is_ascii_chars_encode_utf8("event"@);
    vstd::utf8::is_ascii_chars_encode_utf8("compact"@);
    vstd::utf8::is_ascii_chars_encode_utf8("numwant"@);
    assert("port"@[0] == 'p' && "left"@[0] == 'l' && "compact"@[0] == 'c' && "numwant"@[0] == 'n');
}

/// An announce that says nothing names no torrent and no port, is a leecher's, reports no event and
/// wants 50 peers.
pub proof fn parameters_have_defaults()
    ensures
        http::params_of(Seq::empty()) matches Some(p) && {
            &&& p.info_hash is None
            &&& p.port is None
            &&& p.left > 0
            &&& p.event.len() == 0
            &&& p.numwant == 50
        },
{
}

/// A further pair of an announce says what its key has it say and leaves the rest as it was: the
/// torrent, the port, how much is left, the event, how many peers are wanted. A torrent or a port
/// that cannot be read makes the announce invalid, and so does asking for no compact answer; a
/// `left` that cannot be read is a leecher's, and a number of peers that cannot is passed over.
pub proof fn further_pair_is_taken(
    ps: Seq<(Seq<u8>, Seq<u8>)>,
    raw: Seq<u8>,
    other: Seq<u8>,
    p: ParamsView,
)
    requires
        http::params_of(ps) == Some(p),
        other != text::utf8("info_hash"@),
        other != text::utf8("port"@),
        other != text::utf8("left"@),
        other != text::utf8("event"@),
        other != text::utf8("compact"@),
        other != text::utf8("numwant"@),
    ensures
        http::params_of(ps.push((text::utf8("info_hash"@), raw))) == (match http::hash_of(raw) {
            Some(h) => Some(ParamsView { info_hash: Some(h), ..p }),
            None => None,
        }),
        http::params_of(ps.push((text::utf8("port"@), raw))) == (match text::number(raw, 65535) {
            Some(n) => Some(ParamsView { port: Some(n as u16), ..p }),
            None => None,
        }),
        http::params_of(ps.push((text::utf8("left"@), raw))) == Some(
            ParamsView {
                left: match text::number(raw, u64::MAX as nat) {
                    Some(n) => n as u64,
                    None => 1,
                },
                ..p
            },
        ),
        http::params_of(ps.push((text::utf8("event"@), raw))) == Some(
            ParamsView { event: raw, ..p },
        ),
        http::params_of(ps.push((text::utf8("compact"@), raw))) == (if raw == text::utf8("0"@) {
            None
        } else {
            Some(p)
        }),
        http::params_of(ps.push((text::utf8("numwant"@), raw))) == (match text::number(
            raw,
            usize::MAX as nat,
        ) {
            Some(n) => Some(
                ParamsView {
                    numwant: if n <= 200 {
                        n
                    } else {
                        200
                    },
                    ..p
                },
            ),
            None => Some(p),
        }),
        http::params_of(ps.push((other, raw))) == Some(p),
{
    keys_differ();
    assert(ps.push((text::utf8("info_hash"@), raw)).drop_last() =~= ps);
    assert(ps.push((text::utf8("port"@), raw)).drop_last() =~= ps);
    assert(ps.push((text::utf8("left"@), raw)).drop_last() =~= ps);
    assert(ps.push((text::utf8("event"@), raw)).drop_last() =~= ps);
    assert(ps.push((text::utf8("compact"@), raw)).drop_last() =~= ps);
    assert(ps.push((text::utf8("numwant"@), raw)).drop_last() =~= ps);
    assert(ps.push((other, raw)).drop_last() =~= ps);
}

/// An announce once invalid stays so, whatever follows.
pub proof fn invalid_announce_stays_invalid(ps: Seq<(Seq<u8>, Seq<u8>)>, pair: (Seq<u8>, Seq<u8>))
    requires
        http::params_of(ps) is None,
    ensures
        http::params_of(ps.push(pair)) is None,
{
    assert(ps.push(pair).drop_last() =~= ps);
}

/// A valid torrent stays valid through a report.
proof fn after_is_valid(
    torrents: Map<Seq<u8>, TorrentView>,
    r: udp_handler::PeerReport,
    src_ip: Seq<u8>,
    port: u16,
    now: u32,
)
    requires
        store::known(torrents, r.hash).valid(),
        src_ip.len() == 16,
        r.key == udp_handler::peer_key(src_ip, port, r.is_v4),
    ensures
        store::known(udp_handler::reported(torrents, r, now), r.hash).valid(),
        udp_laws::all_peers(store::known(udp_handler::reported(torrents, r, now), r.hash))
            <= udp_laws::all_peers(store::known(torrents, r.hash)) + 1,
{
    udp_laws::compact_address_reads_back(src_ip, port);
}

/// The counters of a torrent in a body.
pub open spec fn body_counters(t: TorrentView) -> Seq<u8> {
    bencode_laws::count_items(
        udp_laws::all_seeders(t),
        (t.v4.downloaded + t.v6.downloaded) as nat,
        (udp_laws::all_peers(t) - udp_laws::all_seeders(t)) as nat,
    )
}

/// The body of an answer to an announce, by what stands in it.
pub open spec fn answer_body(
    t: TorrentView,
    interval: u32,
    peers4: Seq<u8>,
    peers6: Seq<u8>,
) -> Seq<u8> {
    seq![0x64u8] + body_counters(t) + bencode_laws::int_item("8:interval"@, interval as nat)
        + bencode_laws::int_item("12:min interval"@, (interval / 2) as nat)
        + bencode_laws::bytes_item("5:peers"@, peers4) + bencode_laws::bytes_item(
        "6:peers6"@,
        peers6,
    ) + seq![0x65u8]
}

/// An announce puts the peer into its torrent's swarm, under its own address and family, seen now
/// and seeding exactly if nothing is left. A client of either family is answered with the counters
/// of both, and with peers of its own family: those of IPv4 stand under `peers`, those of IPv6
/// under `peers6`, and the other list is empty.
pub proof fn announce_is_answered_by_family(
    torrents: Map<Seq<u8>, TorrentView>,
    p: ParamsView,
    hash: Seq<u8>,
    port: u16,
    src_ip: Seq<u8>,
    is_v4: bool,
    now: u32,
    interval: u32,
)
    requires
        src_ip.len() == 16,
        p.info_hash == Some(hash),
        p.port == Some(port),
        p.event != text::utf8("stopped"@),
        ({
            let t = store::known(torrents, hash);
            &&& t.valid()
            &&& udp_laws::all_peers(t) < 0xffff_ffff
            &&& t.v4.downloaded + t.v6.downloaded < 0xffff_ffff
        }),
    ensures
        ({
            let h = http::announced(torrents, p, src_ip, is_v4, now, interval);
            let t = h.torrents[hash];
            let key = (if is_v4 {
                src_ip.skip(12)
            } else {
                src_ip
            }).push((port / 256) as u8).push((port % 256) as u8);
            let own = udp_laws::family(t, is_v4).peers;
            &&& h.torrents.contains_key(hash)
            &&& own.contains_key(key)
            &&& own[key].seen == now
            &&& (own[key].flags & 0x80 != 0) == (p.left == 0)
            &&& udp_laws::family(t, !is_v4) == udp_laws::family(
                store::known(torrents, hash),
                !is_v4,
            )
            &&& is_v4 ==> h.response == ResponseView::Body(
                answer_body(
                    t,
                    interval,
                    peers::compact(t.v4.peers, p.numwant),
                    Seq::empty(),
                ),
            )
            &&& !is_v4 ==> h.response == ResponseView::Body(
                answer_body(
                    t,
                    interval,
                    Seq::empty(),
                    peers::compact(t.v6.peers, p.numwant),
                ),
            )
        }),
{
    let r = http::report_of(hash, port, p, src_ip, is_v4);
    let h = http::announced(torrents, p, src_ip, is_v4, now, interval);
    let before = store::known(torrents, hash);
    let t = h.torrents[hash];
    after_is_valid(torrents, r, src_ip, port, now);
    udp_laws::compact_address_reads_back(src_ip, port);
    assert(r.key =~= (if is_v4 {
        src_ip.skip(12)
    } else {
        src_ip
    }).push((port / 256) as u8).push((port % 256) as u8));
    let event = if p.event == text::utf8("completed"@) {
        Event::Completed
    } else {
        Event::Periodic
    };
    udp_laws::flags_say_what_was_announced(p.left, event);
    swarm::announce_registers_the_peer(
        udp_laws::family(before, is_v4),
        r.key,
        r.flags,
        now,
        r.key.push(0),
    );
    swarm::completion_is_recorded_once(udp_laws::family(before, is_v4), r.key, r.flags, now);
    store_laws::counters_cover_both_families(t);
    swarm::seeders_are_by_flag(t.v4.peers);
    swarm::seeders_are_by_flag(t.v6.peers);
    let given = udp_handler::peers_in(h.torrents, r, p.numwant);
    bencode_laws::announce_body_has_its_items(t.counts(), interval, given, Seq::empty());
    bencode_laws::announce_body_has_its_items(t.counts(), interval, Seq::empty(), given);
}

/// A completed download that is reported over HTTP is recorded the first time, and not again; one
/// that still has something left is not recorded at all, nor is any other event.
pub proof fn completion_over_http_is_recorded(
    torrents: Map<Seq<u8>, TorrentView>,
    p: ParamsView,
    hash: Seq<u8>,
    port: u16,
    src_ip: Seq<u8>,
    is_v4: bool,
    now: u32,
    interval: u32,
)
    requires
        p.info_hash == Some(hash),
        p.port == Some(port),
        p.event != text::utf8("stopped"@),
        udp_laws::family(store::known(torrents, hash), is_v4).downloaded < u64::MAX,
    ensures
        ({
            let before = udp_laws::family(store::known(torrents, hash), is_v4);
            let after = udp_laws::family(
                http::announced(torrents, p, src_ip, is_v4, now, interval).torrents[hash],
                is_v4,
            );
            let key = udp_handler::peer_key(src_ip, port, is_v4);
            let known = before.peers.contains_key(key) && before.peers[key].flags & 0x40 != 0;
            after.downloaded == before.downloaded + (if p.event == text::utf8("completed"@)
                && p.left == 0 && !known {
                1int
            } else {
                0
            })
        }),
{
    let r = http::report_of(hash, port, p, src_ip, is_v4);
    let before = udp_laws::family(store::known(torrents, hash), is_v4);
    let event = if p.event == text::utf8("completed"@) {
        Event::Completed
    } else {
        Event::Periodic
    };
    udp_laws::flags_say_what_was_announced(p.left, event);
    swarm::completion_is_recorded_once(before, r.key, r.flags, now);
}

/// A peer that leaves over HTTP is taken out of its family's swarm, and is answered with the
/// counters that are left and no peers.
pub proof fn departure_over_http_is_answered(
    torrents: Map<Seq<u8>, TorrentView>,
    p: ParamsView,
    hash: Seq<u8>,
    port: u16,
    src_ip: Seq<u8>,
    is_v4: bool,
    now: u32,
    interval: u32,
)
    requires
        src_ip.len() == 16,
        p.info_hash == Some(hash),
        p.port == Some(port),
        p.event == text::utf8("stopped"@),
        ({
            let t = store::known(torrents, hash);
            &&& t.valid()
            &&& udp_laws::all_peers(t) < 0xffff_ffff
            &&& t.v4.downloaded + t.v6.downloaded < 0xffff_ffff
        }),
    ensures
        ({
            let h = http::announced(torrents, p, src_ip, is_v4, now, interval);
            let t = store::known(h.torrents, hash);
            let key = udp_handler::peer_key(src_ip, port, is_v4);
            &&& h.torrents.contains_key(hash) == torrents.contains_key(hash)
            &&& !udp_laws::family(t, is_v4).peers.contains_key(key)
            &&& udp_laws::family(t, !is_v4) == udp_laws::family(
                store::known(torrents, hash),
                !is_v4,
            )
            &&& h.response == ResponseView::Body(
                answer_body(t, interval, Seq::empty(), Seq::empty()),
            )
        }),
{
    let r = http::report_of(hash, port, p, src_ip, is_v4);
    let h = http::announced(torrents, p, src_ip, is_v4, now, interval);
    let t = store::known(h.torrents, hash);
    after_is_valid(torrents, r, src_ip, port, now);
    if !h.torrents.contains_key(hash) {
        store_laws::unknown_torrent_counts_nothing(h.torrents, hash);
    }
    store_laws::counters_cover_both_families(t);
    swarm::seeders_are_by_flag(t.v4.peers);
    swarm::seeders_are_by_flag(t.v6.peers);
    bencode_laws::announce_body_has_its_items(t.counts(), interval, Seq::empty(), Seq::empty());
}

/// An announce without a torrent or a port changes nothing and is told what it lacks.
pub proof fn incomplete_announce_is_told(
    torrents: Map<Seq<u8>, TorrentView>,
    p: ParamsView,
    src_ip: Seq<u8>,
    is_v4: bool,
    now: u32,
    interval: u32,
)
    requires
        p.info_hash is None || p.port is None,
    ensures
        http::announced(torrents, p, src_ip, is_v4, now, interval).torrents == torrents,
        http::announced(torrents, p, src_ip, is_v4, now, interval).response == ResponseView::Body(
            seq![0x64u8] + bencode_laws::bytes_item(
                "14:failure reason"@,
                text::utf8("Your client forgot to send your torrent's info_hash."@),
            ) + seq![0x65u8],
        ),
{
    bencode_laws::failure_body_gives_the_reason(
        text::utf8("Your client forgot to send your torrent's info_hash."@),
    );
}

/// The raw hashes that a query asks a scrape for: the values of its `info_hash` pairs, in order.
pub proof fn scrape_asks_in_order(ps: Seq<(Seq<u8>, Seq<u8>)>, key: Seq<u8>, raw: Seq<u8>)
    ensures
        http::info_hash_values(Seq::empty()).len() == 0,
        http::info_hash_values(ps.push((key, raw))) == (if key == text::utf8("info_hash"@) {
            http::info_hash_values(ps).push(raw)
        } else {
            http::info_hash_values(ps)
        }),
{
    reveal(Seq::filter);
    let keyed = |p: (Seq<u8>, Seq<u8>)| p.0 == text::utf8("info_hash"@);
    ps.lemma_filter_push((key, raw), keyed);
    assert(http::info_hash_values(ps.push((key, raw))) =~= (if key == text::utf8("info_hash"@) {
        http::info_hash_values(ps).push(raw)
    } else {
        http::info_hash_values(ps)
    }));
}

/// A scrape is answered for the first 75 torrents asked for, if each of them can be read, with the
/// hash and the counters of each in the order asked; else it is refused.
pub proof fn scrape_is_answered(
    torrents: Map<Seq<u8>, TorrentView>,
    ps: Seq<(Seq<u8>, Seq<u8>)>,
    i: int,
)
    requires
        0 <= i < http::info_hash_values(ps).len(),
        i < 75,
    ensures
        http::hash_of(http::info_hash_values(ps)[i]) is None ==> http::scraped(torrents, ps)
            == ResponseView::BadRequest,
        http::scraped(torrents, ps) is BadRequest ==> exists|j: int|
            0 <= j < 75 && j < http::info_hash_values(ps).len() && http::hash_of(
                #[trigger] http::info_hash_values(ps)[j],
            ) is None,
        http::scraped(torrents, ps) is Body ==> exists|files: Seq<(Seq<u8>, Counts)>|
            {
                &&& http::scraped(torrents, ps) == ResponseView::Body(
                    #[trigger] bencode::scrape_body(files),
                )
                &&& files.len() == (if http::info_hash_values(ps).len() <= 75 {
                    http::info_hash_values(ps).len()
                } else {
                    75
                })
                &&& http::hash_of(http::info_hash_values(ps)[i]) == Some(files[i].0)
                &&& files[i].1 == store::known(torrents, files[i].0).counts()
            },
        http::scraped(torrents, ps) is Body || http::scraped(torrents, ps) is BadRequest,
{
    let raws = http::scrape_raws(ps);
    let all = http::info_hash_values(ps);
    assert(raws[i] == all[i]);
    let files = http::files_of(torrents, raws);
    if http::scraped(torrents, ps) is BadRequest {
        let j = choose|j: int| 0 <= j < raws.len() && !(http::hash_of(#[trigger] raws[j]) is Some);
        assert(all[j] == raws[j]);
    } else {
        assert(http::hash_of(raws[i]) is Some);
        let hash = http::decode(raws[i]).0;
        assert(files[i].0 == hash);
        if !torrents.contains_key(hash) {
            store_laws::unknown_torrent_counts_nothing(torrents, hash);
        }
        assert(http::scraped(torrents, ps) == ResponseView::Body(bencode::scrape_body(files)));
    }
}

/// The paths are told apart and hold no `?`.
proof fn paths_are_plain()
    ensures
        ({
            let root = text::utf8("/"@);
            let announce = text::utf8("/announce"@);
            let scrape = text::utf8("/scrape"@);
            &&& root.len() == 1 && announce.len() == 9 && scrape.len() == 7
            &&& !root.contains(0x3f) && !announce.contains(0x3f) && !scrape.contains(0x3f)
        }),
{
    reveal_strlit("/");
    reveal_strlit("/announce");
    reveal_strlit("/scrape");
    assert(vstd::utf8::is_ascii_chars("/"@));
    assert(vstd::utf8::is_ascii_chars("/announce"@));
    assert(vstd::utf8::is_ascii_chars("/scrape"@));
    vstd::utf8::is_ascii_chars_encode_utf8("/"@);
    vstd::utf8::is_ascii_chars_encode_utf8("/announce"@);
    vstd::utf8::is_ascii_chars_encode_utf8("/scrape"@);
    no_question_mark("/"@);
    no_question_mark("/announce"@);
    no_question_mark("/scrape"@);
}

/// A text without `?` has no `?` byte.
proof fn no_question_mark(s: Seq<char>)
    requires
        vstd::utf8::is_ascii_chars(s),
        forall|i: int| 0 <= i < s.len() ==> #[trigger] s[i] != '?',
    ensures
        !text::utf8(s).contains(0x3f),
{
    vstd::utf8::is_ascii_chars_encode_utf8(s);
    if text::utf8(s).contains(0x3f) {
        let i = choose|i: int| 0 <= i < text::utf8(s).len() && text::utf8(s)[i] == 0x3f;
        assert(s[i] as u8 == 0x3f);
        assert(s[i] == '?');
    }
}

/// The path decides: the root is redirected, `/announce` and `/scrape` are answered from their
/// queries, and any other path, `other` say, is not found.
pub proof fn path_decides(
    torrents: Map<Seq<u8>, TorrentView>,
    query: Seq<u8>,
    other: Seq<u8>,
    src_ip: Seq<u8>,
    is_v4: bool,
    now: u32,
    interval: u32,
)
    requires
        !other.contains(0x3f),
        other != text::utf8("/"@),
        other != text::utf8("/announce"@),
        other != text::utf8("/scrape"@),
    ensures
        ({
            let root = http::handled(
                torrents,
                text::utf8("/"@) + seq![0x3fu8] + query,
                src_ip,
                is_v4,
                now,
                interval,
            );
            let announce = http::handled(
                torrents,
                text::utf8("/announce"@) + seq![0x3fu8] + query,
                src_ip,
                is_v4,
                now,
                interval,
            );
            let scrape = http::handled(
                torrents,
                text::utf8("/scrape"@) + seq![0x3fu8] + query,
                src_ip,
                is_v4,
                now,
                interval,
            );
            let missing = http::handled(
                torrents,
                other + seq![0x3fu8] + query,
                src_ip,
                is_v4,
                now,
                interval,
            );
            &&& root.response is Redirect && root.torrents == torrents
            &&& missing.response is NotFound && missing.torrents == torrents
            &&& scrape.response == http::scraped(torrents, http::pairs(query)) && scrape.torrents
                == torrents
            &&& http::params_of(http::pairs(query)) is None ==> announce.response is BadRequest
                && announce.torrents == torrents
            &&& http::params_of(http::pairs(query)) matches Some(p) ==> announce
                == http::announced(torrents, p, src_ip, is_v4, now, interval)
        }),
        http::handled(torrents, text::utf8("/"@), src_ip, is_v4, now, interval).response
            is Redirect,
        http::handled(torrents, other, src_ip, is_v4, now, interval).response is NotFound,
{
    paths_are_plain();
    text_laws::text_splits_at_the_first(text::utf8("/"@), 0x3f, query);
    text_laws::text_splits_at_the_first(text::utf8("/announce"@), 0x3f, query);
    text_laws::text_splits_at_the_first(text::utf8("/scrape"@), 0x3f, query);
    text_laws::text_splits_at_the_first(other, 0x3f, query);
}

} // verus!

//! HTTP tracker handler: announce / scrape / `GET /` redirect.
//!
//! Pure logic: given a request target (`/announce?...`) and the client's address, it returns a
//! [`Response`]; the runtime does the socket work. The bencode bodies are compact-only
//! (`compact=0` is a 400). Stats are served separately.

use vstd::prelude::*;

use crate::bencode;
use crate::peers;
use crate::store::{Counts, Store, TorrentView};
use crate::text;
use crate::udp::AnnounceView;
use crate::udp_handler;
use crate::udp_handler::PeerReport;
use crate::{Event, InfoHash, HASH_LEN};

verus! {

/// Numwant cap for HTTP announces.
pub const NUMWANT_MAX: usize = 200;

/// Default numwant when the client omits it.
pub const NUMWANT_DEFAULT: usize = 50;

/// Maximum info-hashes honoured in a single HTTP scrape (matches the UDP cap).
pub const MAX_SCRAPE_HASHES: usize = 75;

/// A tracker HTTP response (the runtime maps these onto status codes).
#[derive(Debug, PartialEq, Eq)]
pub enum Response {
    /// `200 OK`, `text/plain`, with a bencoded body.
    Body(Vec<u8>),
    /// `302 Found` to the configured redirect URL (`GET /`).
    Redirect,
    /// `400 Invalid Request`.
    BadRequest,
    /// `404 Not Found`.
    NotFound,
}

/// What a response says.
#[verifier::ext_equal]
pub enum ResponseView {
    Body(Seq<u8>),
    Redirect,
    BadRequest,
    NotFound,
}

impl View for Response {
    type V = ResponseView;

    open spec fn view(&self) -> ResponseView {
        match self {
            Response::Body(b) => ResponseView::Body(b@),
            Response::Redirect => ResponseView::Redirect,
            Response::BadRequest => ResponseView::BadRequest,
            Response::NotFound => ResponseView::NotFound,
        }
    }
}

/// The value of a hexadecimal digit.
pub open spec fn hex(c: u8) -> Option<u8> {
    if 48 <= c <= 57 {
        Some((c - 48) as u8)
    } else if 97 <= c <= 102 {
        Some((c - 97 + 10) as u8)
    } else if 65 <= c <= 70 {
        Some((c - 65 + 10) as u8)
    } else {
        None
    }
}

fn hex_val(c: u8) -> (r: Option<u8>)
    ensures
        r == hex(c),
{
    if 48 <= c && c <= 57 {
        Some(c - 48)
    } else if 97 <= c && c <= 102 {
        Some(c - 97 + 10)
    } else if 65 <= c && c <= 70 {
        Some(c - 65 + 10)
    } else {
        None
    }
}

/// Percent-decoding, with `+` for a space: what comes out before the first malformed escape, and
/// whether there is none.
pub open spec fn decode(s: Seq<u8>) -> (Seq<u8>, bool)
    decreases s.len(),
{
    if s.len() == 0 {
        (Seq::empty(), true)
    } else if s[0] == text::PERCENT {
        if s.len() >= 3 && hex(s[1]) is Some && hex(s[2]) is Some {
            let rest = decode(s.skip(3));
            (seq![(hex(s[1])->0 * 16 + hex(s[2])->0) as u8] + rest.0, rest.1)
        } else {
            (Seq::empty(), false)
        }
    } else {
        let rest = decode(s.skip(1));
        (
            seq![
                if s[0] == text::PLUS {
                    text::SPACE
                } else {
                    s[0]
                },
            ] + rest.0,
            rest.1,
        )
    }
}

/// Percent-decode `input` into `out` (`+` becomes space). Returns `false` on a malformed escape.
pub fn percent_decode(input: &[u8], out: &mut Vec<u8>) -> (r: bool)
    ensures
        final(out)@ == old(out)@ + decode(input@).0,
        r == decode(input@).1,
{
    let ghost start = out@;
    let ghost mut done: Seq<u8> = Seq::empty();
    let mut i: usize = 0;
    let n: usize = input.len();
    assert(input@.skip(0) =~= input@);
    assert(Seq::<u8>::empty() + decode(input@).0 =~= decode(input@).0);
    while i < n
        invariant
            i <= n,
            n == input@.len(),
            start == old(out)@,
            out@ == start + done,
            decode(input@).0 == done + decode(input@.skip(i as int)).0,
            decode(input@).1 == decode(input@.skip(i as int)).1,
        decreases n - i,
    {
        let ghost rest = input@.skip(i as int);
        let c: u8 = input[i];
        if c == text::PERCENT {
            if n - i < 3 {
                assert(out@ =~= start + decode(input@).0);
                return false;
            }
            assert(rest.skip(3) =~= input@.skip(i + 3));
            let (h, l) = match (hex_val(input[i + 1]), hex_val(input[i + 2])) {
                (Some(h), Some(l)) => (h, l),
                _ => {
                    assert(out@ =~= start + decode(input@).0);
                    return false;
                },
            };
            let b: u8 = h * 16 + l;
            out.push(b);
            proof {
                assert(done.push(b) + decode(input@.skip(i + 3)).0 =~= done + decode(rest).0);
                done = done.push(b);
            }
            assert(out@ =~= start + done);
            i = i + 3;
        } else {
            let b: u8 = if c == text::PLUS {
                text::SPACE
            } else {
                c
            };
            out.push(b);
            proof {
                assert(rest.skip(1) =~= input@.skip(i + 1));
                assert(done.push(b) + decode(input@.skip(i + 1)).0 =~= done + decode(rest).0);
                done = done.push(b);
            }
            assert(out@ =~= start + done);
            i = i + 1;
        }
    }
    proof {
        assert(input@.skip(n as int) =~= Seq::<u8>::empty());
        assert(done + Seq::<u8>::empty() =~= done);
    }
    true
}

/// The pairs of a `k=v&k=v` query: key and raw value (not percent-decoded); empty parts are left
/// out, and a part without `=` has an empty value.
pub open spec fn pairs(query: Seq<u8>) -> Seq<(Seq<u8>, Seq<u8>)> {
    text::parts(query, text::AMPERSAND).filter(|p: Seq<u8>| p.len() > 0).map_values(
        |p: Seq<u8>| text::cut(p, text::EQUALS),
    )
}

/// Pairs as the bytes that they borrow.
pub open spec fn pairs_view(s: Seq<(&[u8], &[u8])>) -> Seq<(Seq<u8>, Seq<u8>)> {
    s.map_values(|p: (&[u8], &[u8])| (p.0@, p.1@))
}

/// Split a `k=v&k=v` query into `(key, raw_value)` pairs (value not yet percent-decoded).
pub fn query_pairs<'a>(query: &'a [u8]) -> (r: Vec<(&'a [u8], &'a [u8])>)
    ensures
        pairs_view(r@) == pairs(query@),
{
    let ghost nonempty = |p: Seq<u8>| p.len() > 0;
    let ghost cutter = |p: Seq<u8>| text::cut(p, text::EQUALS);
    let ghost mut seen: Seq<Seq<u8>> = Seq::empty();
    let mut r: Vec<(&'a [u8], &'a [u8])> = Vec::new();
    let mut rest: &'a [u8] = query;
    let mut more: bool = true;
    proof {
        reveal(Seq::filter);
        assert(Seq::<Seq<u8>>::empty() + text::parts(query@, text::AMPERSAND) =~= text::parts(
            query@,
            text::AMPERSAND,
        ));
        assert(pairs_view(r@) =~= seen.filter(nonempty).map_values(cutter));
    }
    while more
        invariant
            nonempty == (|p: Seq<u8>| p.len() > 0),
            cutter == (|p: Seq<u8>| text::cut(p, text::EQUALS)),
            more ==> text::parts(query@, text::AMPERSAND) == seen + text::parts(
                rest@,
                text::AMPERSAND,
            ),
            !more ==> text::parts(query@, text::AMPERSAND) == seen,
            pairs_view(r@) == seen.filter(nonempty).map_values(cutter),
        decreases rest@.len() + (if more {
            1int
        } else {
            0
        }),
    {
        let at: usize = text::position(rest, text::AMPERSAND);
        let n: usize = rest.len();
        let part: &'a [u8] = &rest[0..at];
        proof {
            text::find_first(rest@, text::AMPERSAND);
            assert(part@ =~= rest@.take(at as int));
            assert(rest@.take(n as int) =~= rest@);
            assert(part@ == text::parts(rest@, text::AMPERSAND)[0]);
            seen.lemma_filter_push(part@, nonempty);
            if at < n {
                let tail = text::parts(rest@.skip(at + 1), text::AMPERSAND);
                assert(seen + text::parts(rest@, text::AMPERSAND) =~= seen.push(part@) + tail);
            } else {
                assert(seen + text::parts(rest@, text::AMPERSAND) =~= seen.push(part@));
            }
        }
        if part.len() > 0 {
            let ghost before = r@;
            let pair = text::split_once(part, text::EQUALS);
            r.push(pair);
            proof {
                assert(pairs_view(r@) =~= pairs_view(before).push((pair.0@, pair.1@)));
                assert(seen.filter(nonempty).push(part@).map_values(cutter) =~= seen.filter(
                    nonempty,
                ).map_values(cutter).push(text::cut(part@, text::EQUALS)));
            }
        }
        if at < n {
            rest = &rest[at + 1..n];
        } else {
            more = false;
        }
        proof {
            seen = seen.push(part@);
        }
    }
    r
}

/// The info-hash that a raw query value stands for, if it stands for one.
pub open spec fn hash_of(raw: Seq<u8>) -> Option<Seq<u8>> {
    if decode(raw).1 && decode(raw).0.len() == HASH_LEN {
        Some(decode(raw).0)
    } else {
        None
    }
}

/// The bytes of a slice of exactly [`HASH_LEN`] bytes.
fn to_hash(b: &[u8]) -> (r: InfoHash)
    requires
        b@.len() == HASH_LEN,
    ensures
        r@ == b@,
{
    let r: InfoHash = [
        b[0],
        b[1],
        b[2],
        b[3],
        b[4],
        b[5],
        b[6],
        b[7],
        b[8],
        b[9],
        b[10],
        b[11],
        b[12],
        b[13],
        b[14],
        b[15],
        b[16],
        b[17],
        b[18],
        b[19],
    ];
    assert(r@ =~= b@);
    r
}

/// Decode a raw query value into an info-hash.
fn decode_hash(raw: &[u8]) -> (r: Option<InfoHash>)
    ensures
        match r {
            Some(h) => hash_of(raw@) == Some(h@),
            None => hash_of(raw@) is None,
        },
{
    let mut buf: Vec<u8> = Vec::new();
    let ok: bool = percent_decode(raw, &mut buf);
    assert(buf@ =~= decode(raw@).0);
    if !ok || buf.len() != HASH_LEN {
        return None;
    }
    Some(to_hash(buf.as_slice()))
}

/// What the parameters of an announce say.
#[verifier::ext_equal]
pub struct ParamsView {
    pub info_hash: Option<Seq<u8>>,
    pub port: Option<u16>,
    pub left: u64,
    pub event: Seq<u8>,
    pub numwant: nat,
}

/// The parameters before any was read.
pub open spec fn no_params() -> ParamsView {
    ParamsView {
        info_hash: None,
        port: None,
        left: 1,
        event: Seq::empty(),
        numwant: NUMWANT_DEFAULT as nat,
    }
}

/// The parameters after one more pair, or nothing where the pair makes the request invalid.
///
/// A malformed `left` marks a leecher, not a seeder; a malformed `numwant` is passed over.
pub open spec fn with_pair(p: ParamsView, key: Seq<u8>, raw: Seq<u8>) -> Option<ParamsView> {
    if key == text::utf8("info_hash"@) {
        match hash_of(raw) {
            Some(h) => Some(ParamsView { info_hash: Some(h), ..p }),
            None => None,
        }
    } else if key == text::utf8("port"@) {
        match text::number(raw, 0xffff) {
            Some(n) => Some(ParamsView { port: Some(n as u16), ..p }),
            None => None,
        }
    } else if key == text::utf8("left"@) {
        Some(
            ParamsView {
                left: match text::number(raw, 0xffff_ffff_ffff_ffff) {
                    Some(n) => n as u64,
                    None => 1,
                },
                ..p
            },
        )
    } else if key == text::utf8("event"@) {
        Some(ParamsView { event: raw, ..p })
    } else if key == text::utf8("compact"@) {
        if raw == text::utf8("0"@) {
            None
        } else {
            Some(p)
        }
    } else if key == text::utf8("numwant"@) {
        match text::number(raw, usize::MAX as nat) {
            Some(n) => Some(
                ParamsView {
                    numwant: if n <= NUMWANT_MAX {
                        n
                    } else {
                        NUMWANT_MAX as nat
                    },
                    ..p
                },
            ),
            None => Some(p),
        }
    } else {
        Some(p)
    }
}

/// The parameters of an announce, or nothing where a pair makes the request invalid.
pub open spec fn params_of(ps: Seq<(Seq<u8>, Seq<u8>)>) -> Option<ParamsView>
    decreases ps.len(),
{
    if ps.len() == 0 {
        Some(no_params())
    } else {
        match params_of(ps.drop_last()) {
            Some(p) => with_pair(p, ps.last().0, ps.last().1),
            None => None,
        }
    }
}

/// An invalid pair makes the whole request invalid, whatever follows it.
proof fn invalid_stays(ps: Seq<(Seq<u8>, Seq<u8>)>, i: int)
    requires
        0 <= i <= ps.len(),
        params_of(ps.take(i)) is None,
    ensures
        params_of(ps) is None,
    decreases ps.len(),
{
    if i == ps.len() {
        assert(ps.take(i) =~= ps);
    } else {
        assert(ps.drop_last().take(i) =~= ps.take(i));
        invalid_stays(ps.drop_last(), i);
    }
}

/// The parameters of an announce.
struct Params<'a> {
    info_hash: Option<InfoHash>,
    port: Option<u16>,
    left: u64,
    event: &'a [u8],
    numwant: usize,
}

impl<'a> View for Params<'a> {
    type V = ParamsView;

    closed spec fn view(&self) -> ParamsView {
        ParamsView {
            info_hash: match self.info_hash {
                Some(h) => Some(h@),
                None => None,
            },
            port: self.port,
            left: self.left,
            event: self.event@,
            numwant: self.numwant as nat,
        }
    }
}

impl<'a> Params<'a> {
    /// Take in one more pair; `false` where it makes the request invalid.
    fn absorb(&mut self, key: &[u8], raw: &'a [u8]) -> (ok: bool)
        ensures
            match with_pair(old(self)@, key@, raw@) {
                Some(p) => ok && final(self)@ == p,
                None => !ok,
            },
    {
        let ghost before = self@;
        if text::is(key, "info_hash") {
            match decode_hash(raw) {
                Some(h) => {
                    self.info_hash = Some(h);
                    assert(self@ =~= (ParamsView { info_hash: Some(h@), ..before }));
                    true
                },
                None => false,
            }
        } else if text::is(key, "port") {
            match text::parse_number(raw, 0xffff) {
                Some(n) => {
                    self.port = Some(n as u16);
                    assert(self@ =~= (ParamsView { port: Some(n as u16), ..before }));
                    true
                },
                None => false,
            }
        } else if text::is(key, "left") {
            self.left = match text::parse_number(raw, 0xffff_ffff_ffff_ffff) {
                Some(n) => n,
                None => 1,  // malformed: a leecher, not a seeder
            };
            assert(self@ =~= (ParamsView { left: self.left, ..before }));
            true
        } else if text::is(key, "event") {
            self.event = raw;
            assert(self@ =~= (ParamsView { event: raw@, ..before }));
            true
        } else if text::is(key, "compact") {
            // only compact responses are supported
            !text::is(raw, "0")
        } else if text::is(key, "numwant") {
            if let Some(n) = text::parse_number(raw, usize::MAX as u64) {
                self.numwant = if n <= NUMWANT_MAX as u64 {
                    n as usize
                } else {
                    NUMWANT_MAX
                };
                assert(self@ =~= (ParamsView { numwant: self.numwant as nat, ..before }));
            }
            true
        } else {
            true
        }
    }
}

/// What an announce reports of its peer.
pub open spec fn report_of(
    hash: Seq<u8>,
    port: u16,
    p: ParamsView,
    src_ip: Seq<u8>,
    is_v4: bool,
) -> PeerReport {
    PeerReport {
        hash,
        key: udp_handler::peer_key(src_ip, port, is_v4),
        is_v4,
        flags: udp_handler::announce_flags(
            p.left,
            if p.event == text::utf8("completed"@) {
                Event::Completed
            } else {
                Event::Periodic
            },
        ),
        stopped: p.event == text::utf8("stopped"@),
    }
}

/// The body that tells a client what its announce lacks.
pub open spec fn forgot_body() -> Seq<u8> {
    bencode::failure_body(text::utf8("Your client forgot to send your torrent's info_hash."@))
}

/// What a request does: to the store, and what is answered.
#[verifier::ext_equal]
pub struct Handled {
    pub torrents: Map<Seq<u8>, TorrentView>,
    pub response: ResponseView,
}

/// The effect of an announce with valid parameters.
pub open spec fn announced(
    torrents: Map<Seq<u8>, TorrentView>,
    p: ParamsView,
    src_ip: Seq<u8>,
    is_v4: bool,
    now: u32,
    interval: u32,
) -> Handled {
    match (p.info_hash, p.port) {
        (Some(hash), Some(port)) => {
            let report = report_of(hash, port, p, src_ip, is_v4);
            let after = udp_handler::reported(torrents, report, now);
            let given = udp_handler::peers_in(after, report, p.numwant);
            Handled {
                torrents: after,
                response: ResponseView::Body(
                    bencode::announce_body(
                        udp_handler::counts_in(after, hash),
                        interval,
                        if is_v4 {
                            given
                        } else {
                            Seq::empty()
                        },
                        if is_v4 {
                            Seq::empty()
                        } else {
                            given
                        },
                    ),
                ),
            }
        },
        _ => Handled { torrents, response: ResponseView::Body(forgot_body()) },
    }
}

/// The raw info-hashes of a scrape, as many as are honoured.
pub open spec fn scrape_raws(ps: Seq<(Seq<u8>, Seq<u8>)>) -> Seq<Seq<u8>> {
    peers::up_to(info_hash_values(ps), MAX_SCRAPE_HASHES as nat)
}

/// The values of the `info_hash` pairs.
pub open spec fn info_hash_values(ps: Seq<(Seq<u8>, Seq<u8>)>) -> Seq<Seq<u8>> {
    ps.filter(|p: (Seq<u8>, Seq<u8>)| p.0 == text::utf8("info_hash"@)).map_values(
        |p: (Seq<u8>, Seq<u8>)| p.1,
    )
}

/// The files of a scrape.
pub open spec fn files_of(torrents: Map<Seq<u8>, TorrentView>, raws: Seq<Seq<u8>>) -> Seq<
    (Seq<u8>, Counts),
> {
    raws.map_values(
        |raw: Seq<u8>| (decode(raw).0, udp_handler::counts_in(torrents, decode(raw).0)),
    )
}

/// The answer to a scrape.
pub open spec fn scraped(
    torrents: Map<Seq<u8>, TorrentView>,
    ps: Seq<(Seq<u8>, Seq<u8>)>,
) -> ResponseView {
    let raws = scrape_raws(ps);
    if forall|i: int| 0 <= i < raws.len() ==> hash_of(#[trigger] raws[i]) is Some {
        ResponseView::Body(bencode::scrape_body(files_of(torrents, raws)))
    } else {
        ResponseView::BadRequest
    }
}

/// The effect of a request.
pub open spec fn handled(
    torrents: Map<Seq<u8>, TorrentView>,
    target: Seq<u8>,
    src_ip: Seq<u8>,
    is_v4: bool,
    now: u32,
    interval: u32,
) -> Handled {
    let (path, query) = text::cut(target, text::QUESTION);
    if path == text::utf8("/"@) {
        Handled { torrents, response: ResponseView::Redirect }
    } else if path == text::utf8("/announce"@) {
        match params_of(pairs(query)) {
            Some(p) => announced(torrents, p, src_ip, is_v4, now, interval),
            None => Handled { torrents, response: ResponseView::BadRequest },
        }
    } else if path == text::utf8("/scrape"@) {
        Handled { torrents, response: scraped(torrents, pairs(query)) }
    } else {
        Handled { torrents, response: ResponseView::NotFound }
    }
}

/// A byte as a percent escape.
pub open spec fn escape(b: u8) -> Seq<u8> {
    seq![text::PERCENT, hex_digit(b / 16), hex_digit(b % 16)]
}

/// The hexadecimal digit of a value below 16.
pub open spec fn hex_digit(n: u8) -> u8 {
    if n < 10 {
        (48 + n) as u8
    } else {
        (55 + n) as u8
    }
}

/// Bytes, each as a percent escape.
pub open spec fn escaped(s: Seq<u8>) -> Seq<u8>
    decreases s.len(),
{
    if s.len() == 0 {
        Seq::empty()
    } else {
        escape(s[0]) + escaped(s.skip(1))
    }
}

/// Percent-escaped bytes decode to the bytes.
pub proof fn escapes_decode(s: Seq<u8>)
    ensures
        decode(escaped(s)) == (s, true),
    decreases s.len(),
{
    if s.len() > 0 {
        escapes_decode(s.skip(1));
        let e = escaped(s);
        assert(e.skip(3) =~= escaped(s.skip(1)));
        assert(e[0] == text::PERCENT);
        assert(e[1] == hex_digit(s[0] / 16) && e[2] == hex_digit(s[0] % 16));
        assert(hex(e[1]) == Some((s[0] / 16) as u8));
        assert(hex(e[2]) == Some((s[0] % 16) as u8));
        assert(seq![s[0]] + s.skip(1) =~= s);
    }
}

/// Any info-hash, percent-escaped, is understood.
pub proof fn escaped_hash_is_understood(hash: Seq<u8>)
    requires
        hash.len() == HASH_LEN,
    ensures
        hash_of(escaped(hash)) == Some(hash),
{
    escapes_decode(hash);
}

/// Text without `%` and `+` decodes to itself.
pub proof fn plain_text_decodes(s: Seq<u8>)
    requires
        forall|i: int| 0 <= i < s.len() ==> #[trigger] s[i] != text::PERCENT && s[i] != text::PLUS,
    ensures
        decode(s) == (s, true),
    decreases s.len(),
{
    if s.len() > 0 {
        assert(s[0] != text::PERCENT && s[0] != text::PLUS);
        assert forall|i: int| 0 <= i < s.skip(1).len() implies #[trigger] s.skip(1)[i]
            != text::PERCENT && s.skip(1)[i] != text::PLUS by {
            assert(s[i + 1] != text::PERCENT && s[i + 1] != text::PLUS);
        }
        plain_text_decodes(s.skip(1));
        assert(seq![s[0]] + s.skip(1) =~= s);
    }
}

/// A request that gets no body changes nothing.
pub proof fn refused_changes_nothing(
    torrents: Map<Seq<u8>, TorrentView>,
    target: Seq<u8>,
    src_ip: Seq<u8>,
    is_v4: bool,
    now: u32,
    interval: u32,
)
    ensures
        ({
            let h = handled(torrents, target, src_ip, is_v4, now, interval);
            h.response is Body || h.torrents == torrents
        }),
{
}

/// Only announces change the store.
pub proof fn only_announces_change_the_store(
    torrents: Map<Seq<u8>, TorrentView>,
    target: Seq<u8>,
    src_ip: Seq<u8>,
    is_v4: bool,
    now: u32,
    interval: u32,
)
    requires
        text::cut(target, text::QUESTION).0 != text::utf8("/announce"@),
    ensures
        handled(torrents, target, src_ip, is_v4, now, interval).torrents == torrents,
{
}

/// An announce that wants no compact response is refused, whatever else it says.
pub proof fn uncompact_is_refused(ps: Seq<(Seq<u8>, Seq<u8>)>, i: int)
    requires
        0 <= i < ps.len(),
        ps[i] == (text::utf8("compact"@), text::utf8("0"@)),
    ensures
        params_of(ps) is None,
{
    reveal_strlit("compact");
    reveal_strlit("info_hash");
    reveal_strlit("port");
    reveal_strlit("left");
    reveal_strlit("event");
    assert(vstd::utf8::is_ascii_chars("compact"@));
    assert(vstd::utf8::is_ascii_chars("info_hash"@));
    assert(vstd::utf8::is_ascii_chars("port"@));
    assert(vstd::utf8::is_ascii_chars("left"@));
    assert(vstd::utf8::is_ascii_chars("event"@));
    vstd::utf8::is_ascii_chars_encode_utf8("compact"@);
    vstd::utf8::is_ascii_chars_encode_utf8("info_hash"@);
    vstd::utf8::is_ascii_chars_encode_utf8("port"@);
    vstd::utf8::is_ascii_chars_encode_utf8("left"@);
    vstd::utf8::is_ascii_chars_encode_utf8("event"@);
    assert(text::utf8("compact"@).len() == 7);
    assert(text::utf8("info_hash"@).len() == 9);
    assert(text::utf8("port"@).len() == 4);
    assert(text::utf8("left"@).len() == 4);
    assert(text::utf8("event"@).len() == 5);
    let head = ps.take(i + 1);
    assert(head.drop_last() =~= ps.take(i));
    assert(head.last() == ps[i]);
    assert(params_of(head) is None);
    invalid_stays(ps, i + 1);
}

/// No announce asks for more peers than the cap, whatever it says.
pub proof fn numwant_is_capped(ps: Seq<(Seq<u8>, Seq<u8>)>)
    ensures
        params_of(ps) matches Some(p) ==> p.numwant <= NUMWANT_MAX,
    decreases ps.len(),
{
    if ps.len() > 0 {
        numwant_is_capped(ps.drop_last());
    }
}

/// No scrape is answered for more torrents than the cap.
pub proof fn scrape_is_capped(ps: Seq<(Seq<u8>, Seq<u8>)>)
    ensures
        scrape_raws(ps).len() <= MAX_SCRAPE_HASHES,
{
}

/// The two protocols mean the same by an announce: with the same torrent, port, progress and event
/// they report the same peer.
pub proof fn protocols_agree(
    a: AnnounceView,
    p: ParamsView,
    src_ip: Seq<u8>,
    is_v4: bool,
)
    requires
        p.left == a.left,
        p.event == (match a.event {
            Event::Completed => text::utf8("completed"@),
            Event::Stopped => text::utf8("stopped"@),
            Event::Periodic => Seq::empty(),
        }),
    ensures
        report_of(a.info_hash, a.port, p, src_ip, is_v4) == udp_handler::report_of(
            a,
            src_ip,
            is_v4,
        ),
{
    reveal_strlit("completed");
    reveal_strlit("stopped");
    assert(vstd::utf8::is_ascii_chars("completed"@));
    assert(vstd::utf8::is_ascii_chars("stopped"@));
    vstd::utf8::is_ascii_chars_encode_utf8("completed"@);
    vstd::utf8::is_ascii_chars_encode_utf8("stopped"@);
    assert(text::utf8("completed"@).len() == 9);
    assert(text::utf8("stopped"@).len() == 7);
}

/// The HTTP tracker handler.
#[derive(Debug, Clone, Copy)]
pub struct HttpHandler;

impl HttpHandler {
    /// Create a handler.
    #[must_use]
    pub fn new() -> (r: Self)
        ensures
            r == HttpHandler,
    {
        HttpHandler
    }

    /// Handle a request. `target` is the raw request target (path + optional query), `src_ip` the
    /// 16-byte client address, `is_v4` the family, and `interval` the (jittered) announce interval.
    pub fn handle(
        &self,
        store: &mut Store,
        target: &str,
        src_ip: &[u8; 16],
        is_v4: bool,
        now: u32,
        interval: u32,
    ) -> (r: Response)
        requires
            old(store).wf(),
        ensures
            final(store).wf(),
            handled(old(store)@, text::utf8(target@), src_ip@, is_v4, now, interval) == (Handled {
                torrents: final(store)@,
                response: r@,
            }),
    {
        let (path, query) = text::split_once(target.as_bytes(), text::QUESTION);
        if text::is(path, "/") {
            Response::Redirect
        } else if text::is(path, "/announce") {
            self.announce(store, query, src_ip, is_v4, now, interval)
        } else if text::is(path, "/scrape") {
            self.scrape(store, query)
        } else {
            Response::NotFound
        }
    }

    fn announce(
        &self,
        store: &mut Store,
        query: &[u8],
        src_ip: &[u8; 16],
        is_v4: bool,
        now: u32,
        interval: u32,
    ) -> (r: Response)
        requires
            old(store).wf(),
        ensures
            final(store).wf(),
            match params_of(pairs(query@)) {
                Some(p) => announced(old(store)@, p, src_ip@, is_v4, now, interval) == (Handled {
                    torrents: final(store)@,
                    response: r@,
                }),
                None => final(store)@ == old(store)@ && r@ == ResponseView::BadRequest,
            },
    {
        let ps = query_pairs(query);
        let ghost pv = pairs(query@);
        let mut p = Params {
            info_hash: None,
            port: None,
            left: 1,
            event: &query[0..0],
            numwant: NUMWANT_DEFAULT,
        };
        assert(p@ =~= no_params());
        assert(pv.take(0) =~= Seq::empty());
        let mut i: usize = 0;
        while i < ps.len()
            invariant
                i <= ps@.len(),
                store == old(store),
                store.wf(),
                pv == pairs(query@),
                pairs_view(ps@) == pv,
                params_of(pv.take(i as int)) == Some(p@),
            decreases ps@.len() - i,
        {
            let (key, raw) = ps[i];
            proof {
                let k = i as int;
                assert(pv[k] == (key@, raw@));
                assert(pv.take(k + 1).drop_last() =~= pv.take(k));
                assert(pv.take(k + 1).last() == pv[k]);
            }
            if !p.absorb(key, raw) {
                proof {
                    invalid_stays(pv, i + 1);
                }
                return Response::BadRequest;
            }
            i = i + 1;
        }
        assert(pv.take(pv.len() as int) =~= pv);

        let (hash, port) = match (p.info_hash, p.port) {
            (Some(hash), Some(port)) => (hash, port),
            _ => {
                let mut body: Vec<u8> = Vec::new();
                bencode::failure(
                    &mut body,
                    "Your client forgot to send your torrent's info_hash.".as_bytes(),
                );
                assert(body@ =~= forgot_body());
                return Response::Body(body);
            },
        };
        let event = if text::is(p.event, "completed") {
            Event::Completed
        } else {
            Event::Periodic
        };
        let flags: u8 = udp_handler::flags_of(p.left, event);
        let stopped: bool = text::is(p.event, "stopped");
        let mut given: Vec<u8> = Vec::new();
        let counts = udp_handler::report_peer(
            store,
            &hash,
            src_ip,
            port,
            is_v4,
            flags,
            stopped,
            p.numwant,
            now,
            &mut given,
        );
        let none: Vec<u8> = Vec::new();
        let mut body: Vec<u8> = Vec::new();
        if is_v4 {
            bencode::announce_response(
                &mut body,
                counts,
                interval,
                given.as_slice(),
                none.as_slice(),
            );
        } else {
            bencode::announce_response(
                &mut body,
                counts,
                interval,
                none.as_slice(),
                given.as_slice(),
            );
        }
        proof {
            let report = report_of(hash@, port, p@, src_ip@, is_v4);
            assert(given@ =~= udp_handler::peers_in(store@, report, p.numwant as nat));
            assert(none@ =~= Seq::<u8>::empty());
            assert(body@ =~= bencode::announce_body(
                counts,
                interval,
                if is_v4 {
                    given@
                } else {
                    none@
                },
                if is_v4 {
                    none@
                } else {
                    given@
                },
            ));
        }
        Response::Body(body)
    }

    fn scrape(&self, store: &Store, query: &[u8]) -> (r: Response)
        requires
            store.wf(),
        ensures
            r@ == scraped(store@, pairs(query@)),
    {
        let ps = query_pairs(query);
        let ghost pv = pairs(query@);
        let ghost keyed = |p: (Seq<u8>, Seq<u8>)| p.0 == text::utf8("info_hash"@);
        let ghost value = |p: (Seq<u8>, Seq<u8>)| p.1;
        let ghost raws = scrape_raws(pv);
        let mut hashes: Vec<InfoHash> = Vec::new();
        let mut counts: Vec<Counts> = Vec::new();
        proof {
            reveal(Seq::filter);
            assert(pv.take(0) =~= Seq::empty());
            assert(info_hash_values(pv.take(0)) =~= Seq::empty());
        }
        let mut i: usize = 0;
        while i < ps.len() && hashes.len() < MAX_SCRAPE_HASHES
            invariant
                i <= ps@.len(),
                store.wf(),
                pv == pairs(query@),
                pairs_view(ps@) == pv,
                keyed == (|p: (Seq<u8>, Seq<u8>)| p.0 == text::utf8("info_hash"@)),
                value == (|p: (Seq<u8>, Seq<u8>)| p.1),
                raws == scrape_raws(pv),
                hashes@.len() == counts@.len(),
                hashes@.len() <= MAX_SCRAPE_HASHES,
                hashes@.len() == info_hash_values(pv.take(i as int)).len(),
                forall|j: int|
                    0 <= j < hashes@.len() ==> hash_of(
                        #[trigger] info_hash_values(pv.take(i as int))[j],
                    ) == Some(hashes@[j]@),
                forall|j: int|
                    0 <= j < hashes@.len() ==> #[trigger] counts@[j] == udp_handler::counts_in(
                        store@,
                        hashes@[j]@,
                    ),
            decreases ps@.len() - i,
        {
            let (key, raw) = ps[i];
            let ghost k = i as int;
            proof {
                assert(pv[k] == (key@, raw@));
                assert(pv.take(k + 1) =~= pv.take(k).push(pv[k]));
                pv.take(k).lemma_filter_push(pv[k], keyed);
                if keyed(pv[k]) {
                    assert(info_hash_values(pv.take(k + 1)) =~= info_hash_values(pv.take(k)).push(
                        raw@,
                    ));
                } else {
                    assert(info_hash_values(pv.take(k + 1)) =~= info_hash_values(pv.take(k)));
                }
                values_prefix(pv, k + 1);
            }
            if text::is(key, "info_hash") {
                match decode_hash(raw) {
                    Some(hash) => {
                        counts.push(store.scrape(&hash));
                        hashes.push(hash);
                    },
                    None => {
                        proof {
                            let n = info_hash_values(pv.take(k)).len() as int;
                            let head = info_hash_values(pv).take(n + 1);
                            assert(head == info_hash_values(pv.take(k + 1)));
                            assert(head[n] == raw@);
                            assert(info_hash_values(pv)[n] == raw@);
                            assert(raws[n] == raw@);
                        }
                        return Response::BadRequest;
                    },
                }
            }
            i = i + 1;
        }
        proof {
            values_prefix(pv, i as int);
            if i == ps@.len() {
                assert(pv.take(i as int) =~= pv);
            }
            assert(raws =~= info_hash_values(pv.take(i as int)));
        }
        let mut files: Vec<(&InfoHash, Counts)> = Vec::new();
        let mut j: usize = 0;
        while j < hashes.len()
            invariant
                j <= hashes@.len(),
                hashes@.len() == counts@.len(),
                hashes@.len() == raws.len(),
                files@.len() == j,
                forall|k: int|
                    0 <= k < hashes@.len() ==> hash_of(#[trigger] raws[k]) == Some(hashes@[k]@),
                forall|k: int|
                    0 <= k < hashes@.len() ==> #[trigger] counts@[k] == udp_handler::counts_in(
                        store@,
                        hashes@[k]@,
                    ),
                forall|k: int|
                    0 <= k < j ==> (#[trigger] files@[k]).0@ == hashes@[k]@ && files@[k].1
                        == counts@[k],
            decreases hashes@.len() - j,
        {
            files.push((&hashes[j], counts[j]));
            j = j + 1;
        }
        let mut body: Vec<u8> = Vec::new();
        bencode::scrape_response(&mut body, files.as_slice());
        proof {
            assert forall|k: int| 0 <= k < raws.len() implies bencode::files_view(files@)[k]
                == files_of(store@, raws)[k] by {
                assert(hash_of(raws[k]) == Some(hashes@[k]@));
                assert(files@[k].0@ == hashes@[k]@);
                assert(counts@[k] == udp_handler::counts_in(store@, hashes@[k]@));
            }
            assert(bencode::files_view(files@) =~= files_of(store@, raws));
            assert(body@ =~= bencode::scrape_body(files_of(store@, raws)));
        }
        Response::Body(body)
    }
}

/// The values of the first pairs come first.
proof fn values_prefix(ps: Seq<(Seq<u8>, Seq<u8>)>, i: int)
    requires
        0 <= i <= ps.len(),
    ensures
        info_hash_values(ps.take(i)).len() <= info_hash_values(ps).len(),
        info_hash_values(ps).take(info_hash_values(ps.take(i)).len() as int)
            == info_hash_values(ps.take(i)),
{
    let keyed = |p: (Seq<u8>, Seq<u8>)| p.0 == text::utf8("info_hash"@);
    assert(ps =~= ps.take(i) + ps.skip(i));
    Seq::filter_distributes_over_add(ps.take(i), ps.skip(i), keyed);
    assert(info_hash_values(ps) =~= info_hash_values(ps.take(i)) + info_hash_values(ps.skip(i)));
    assert(info_hash_values(ps).take(info_hash_values(ps.take(i)).len() as int)
        =~= info_hash_values(ps.take(i)));
}

} // verus!

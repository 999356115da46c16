//! BEP-15 UDP tracker protocol: request parsing and response serialization.
//!
//! All multi-byte fields are big-endian. Parsing borrows from the input datagram (zero-copy);
//! serialization writes into a caller-provided buffer (allocation-free), so this maps cleanly
//! onto a reusable per-worker scratch buffer on the hot path.

use vstd::prelude::*;

use crate::wire;
use crate::{Event, InfoHash, PeerId, HASH_LEN};

verus! {

/// The BEP-15 magic protocol id present in every `connect` request (`0x41727101980`).
pub const PROTOCOL_ID: u64 = 0x0000_0417_2710_1980;

/// Minimum size of any request datagram: connection_id(8) + action(4) + transaction_id(4).
pub const MIN_PACKET: usize = 16;

/// Minimum size of an `announce` request.
pub const ANNOUNCE_MIN: usize = 98;

/// Compact IPv4 peer size: 4-byte address + 2-byte port.
pub const PEER4_LEN: usize = 6;

/// Compact IPv6 peer size: 16-byte address + 2-byte port.
pub const PEER6_LEN: usize = 18;

/// Maximum number of info-hashes honoured in a single UDP scrape.
pub const MAX_SCRAPE_HASHES: usize = 75;

/// A parsed BEP-15 request, borrowing from the source datagram.
#[derive(Debug, PartialEq, Eq)]
pub enum Request<'a> {
    /// `connect` (action 0) with a valid protocol id.
    Connect {
        /// Client transaction id to echo back.
        transaction_id: u32,
    },
    /// `announce` (action 1).
    Announce(Announce<'a>),
    /// `scrape` (action 2).
    Scrape(Scrape<'a>),
}

/// A parsed BEP-15 `announce` request.
#[derive(Debug, PartialEq, Eq)]
pub struct Announce<'a> {
    /// Connection id supplied by the client (validated by the caller against the connid scheme).
    pub connection_id: u64,
    /// Client transaction id to echo back.
    pub transaction_id: u32,
    /// The torrent info-hash (borrowed).
    pub info_hash: &'a InfoHash,
    /// The client's peer id (borrowed).
    pub peer_id: &'a PeerId,
    /// Bytes downloaded (informational; not used for peer accounting).
    pub downloaded: u64,
    /// Bytes left; `0` marks a seeder.
    pub left: u64,
    /// Bytes uploaded (informational).
    pub uploaded: u64,
    /// Decoded announce event.
    pub event: Event,
    /// Requested peer count (signed per BEP-15; `-1` means "tracker default").
    pub num_want: i32,
    /// The port the peer listens on.
    pub port: u16,
}

/// A parsed BEP-15 `scrape` request.
#[derive(Debug, PartialEq, Eq)]
pub struct Scrape<'a> {
    /// Connection id supplied by the client.
    pub connection_id: u64,
    /// Client transaction id to echo back.
    pub transaction_id: u32,
    /// Concatenated 20-byte info-hashes, capped at [`MAX_SCRAPE_HASHES`] and to whole strides.
    pub hashes: &'a [u8],
}

/// Why a datagram could not be parsed as a BEP-15 request.
#[derive(Debug, PartialEq, Eq)]
pub enum ParseError {
    /// Datagram shorter than [`MIN_PACKET`].
    TooShort,
    /// `connect` request without the [`PROTOCOL_ID`] magic.
    BadProtocolId,
    /// `announce` request shorter than [`ANNOUNCE_MIN`].
    AnnounceTooShort,
    /// Action field greater than 2.
    UnknownAction(u32),
}

/// What an `announce` request says.
#[verifier::ext_equal]
pub struct AnnounceView {
    pub connection_id: u64,
    pub transaction_id: u32,
    pub info_hash: Seq<u8>,
    pub peer_id: Seq<u8>,
    pub downloaded: u64,
    pub left: u64,
    pub uploaded: u64,
    pub event: Event,
    pub num_want: i32,
    pub port: u16,
}

/// What a `scrape` request says.
#[verifier::ext_equal]
pub struct ScrapeView {
    pub connection_id: u64,
    pub transaction_id: u32,
    pub hashes: Seq<u8>,
}

/// What a request says.
#[verifier::ext_equal]
pub enum RequestView {
    Connect { transaction_id: u32 },
    Announce(AnnounceView),
    Scrape(ScrapeView),
}

impl<'a> View for Announce<'a> {
    type V = AnnounceView;

    open spec fn view(&self) -> AnnounceView {
        AnnounceView {
            connection_id: self.connection_id,
            transaction_id: self.transaction_id,
            info_hash: self.info_hash@,
            peer_id: self.peer_id@,
            downloaded: self.downloaded,
            left: self.left,
            uploaded: self.uploaded,
            event: self.event,
            num_want: self.num_want,
            port: self.port,
        }
    }
}

impl<'a> View for Scrape<'a> {
    type V = ScrapeView;

    open spec fn view(&self) -> ScrapeView {
        ScrapeView {
            connection_id: self.connection_id,
            transaction_id: self.transaction_id,
            hashes: self.hashes@,
        }
    }
}

impl<'a> View for Request<'a> {
    type V = RequestView;

    open spec fn view(&self) -> RequestView {
        match self {
            Request::Connect { transaction_id } => RequestView::Connect {
                transaction_id: *transaction_id,
            },
            Request::Announce(a) => RequestView::Announce(a@),
            Request::Scrape(s) => RequestView::Scrape(s@),
        }
    }
}

/// The unsigned number in bytes `from..to` of a datagram.
pub open spec fn field(buf: Seq<u8>, from: int, to: int) -> nat {
    wire::be_nat(buf.subrange(from, to))
}

/// A 32-bit number read in two's complement.
pub open spec fn signed(n: nat) -> int {
    if n < 0x8000_0000 {
        n as int
    } else {
        n - 0x1_0000_0000
    }
}

/// What an `announce` datagram says.
pub open spec fn announce_of(buf: Seq<u8>) -> AnnounceView {
    AnnounceView {
        connection_id: field(buf, 0, 8) as u64,
        transaction_id: field(buf, 12, 16) as u32,
        info_hash: buf.subrange(16, 36),
        peer_id: buf.subrange(36, 56),
        downloaded: field(buf, 56, 64) as u64,
        left: field(buf, 64, 72) as u64,
        uploaded: field(buf, 72, 80) as u64,
        event: crate::udp_event(field(buf, 80, 84) as u32),
        num_want: signed(field(buf, 92, 96)) as i32,
        port: field(buf, 96, 98) as u16,
    }
}

/// How many info-hashes of a `scrape` datagram of this length are honoured.
pub open spec fn scrape_len(len: nat) -> int {
    if (len - MIN_PACKET) / (HASH_LEN as int) <= MAX_SCRAPE_HASHES {
        (len - MIN_PACKET) / (HASH_LEN as int)
    } else {
        MAX_SCRAPE_HASHES as int
    }
}

/// What a `scrape` datagram says.
pub open spec fn scrape_of(buf: Seq<u8>) -> ScrapeView {
    ScrapeView {
        connection_id: field(buf, 0, 8) as u64,
        transaction_id: field(buf, 12, 16) as u32,
        hashes: buf.subrange(
            MIN_PACKET as int,
            MIN_PACKET + scrape_len(buf.len()) * HASH_LEN,
        ),
    }
}

/// What a datagram says, or why it says nothing.
pub open spec fn request_of(buf: Seq<u8>) -> Result<RequestView, ParseError> {
    if buf.len() < MIN_PACKET {
        Err(ParseError::TooShort)
    } else if field(buf, 8, 12) == 0 {
        if field(buf, 0, 8) != PROTOCOL_ID {
            Err(ParseError::BadProtocolId)
        } else {
            Ok(RequestView::Connect { transaction_id: field(buf, 12, 16) as u32 })
        }
    } else if field(buf, 8, 12) == 1 {
        if buf.len() < ANNOUNCE_MIN {
            Err(ParseError::AnnounceTooShort)
        } else {
            Ok(RequestView::Announce(announce_of(buf)))
        }
    } else if field(buf, 8, 12) == 2 {
        Ok(RequestView::Scrape(scrape_of(buf)))
    } else {
        Err(ParseError::UnknownAction(field(buf, 8, 12) as u32))
    }
}

/// The parts of concatenated info-hashes.
pub open spec fn strides(hashes: Seq<u8>) -> Seq<Seq<u8>> {
    Seq::new(
        hashes.len() / HASH_LEN as nat,
        |i: int| hashes.subrange(i * HASH_LEN, i * HASH_LEN + HASH_LEN),
    )
}

/// Borrow a 20-byte hash from a slice of exactly [`HASH_LEN`] bytes.
///
/// Calls the standard `TryFrom<&[T]> for &[T; N]`, which succeeds on a slice of that length and
/// gives a reference to the same bytes.
#[verifier::external_body]
fn hash_ref(b: &[u8]) -> (r: &InfoHash)
    requires
        b@.len() == HASH_LEN,
    ensures
        r@ == b@,
{
    <&InfoHash>::try_from(b).expect("HASH_LEN bytes")
}

impl<'a> Scrape<'a> {
    /// The requested info-hashes.
    pub fn iter_hashes(&self) -> (r: Vec<&'a InfoHash>)
        ensures
            r@.len() == strides(self.hashes@).len(),
            forall|i: int| 0 <= i < r@.len() ==> (#[trigger] r@[i])@ == strides(self.hashes@)[i],
    {
        let hashes: &'a [u8] = self.hashes;
        let n: usize = hashes.len() / HASH_LEN;
        let mut r: Vec<&'a InfoHash> = Vec::new();
        let mut i: usize = 0;
        while i < n
            invariant
                i <= n,
                n == hashes@.len() / HASH_LEN as nat,
                hashes@.len() <= usize::MAX,
                hashes@ == self.hashes@,
                r@.len() == i,
                forall|j: int| 0 <= j < i ==> (#[trigger] r@[j])@ == strides(hashes@)[j],
            decreases n - i,
        {
            let at: usize = i * HASH_LEN;
            r.push(hash_ref(&hashes[at..at + HASH_LEN]));
            i = i + 1;
        }
        r
    }
}

/// Parse a UDP datagram into a [`Request`].
///
/// # Errors
/// Returns a [`ParseError`] for datagrams that are too short, carry a bad connect magic, are an
/// undersized announce, or use an unknown action.
pub fn parse(buf: &[u8]) -> (r: Result<Request<'_>, ParseError>)
    ensures
        match r {
            Ok(q) => request_of(buf@) == Ok::<RequestView, ParseError>(q@),
            Err(e) => request_of(buf@) == Err::<RequestView, ParseError>(e),
        },
{
    if buf.len() < MIN_PACKET {
        return Err(ParseError::TooShort);
    }
    let connection_id: u64 = wire::be_u64(&buf[0..8]);
    let action: u32 = wire::be_u32(&buf[8..12]);
    let transaction_id: u32 = wire::be_u32(&buf[12..16]);

    match action {
        0 => {
            if connection_id != PROTOCOL_ID {
                return Err(ParseError::BadProtocolId);
            }
            Ok(Request::Connect { transaction_id })
        },
        1 => {
            if buf.len() < ANNOUNCE_MIN {
                return Err(ParseError::AnnounceTooShort);
            }
            let want: u32 = wire::be_u32(&buf[92..96]);
            assert(want as i32 == if want < 0x8000_0000u32 {
                want as int
            } else {
                want - 0x1_0000_0000
            }) by (bit_vector);
            let a = Announce {
                connection_id,
                transaction_id,
                info_hash: hash_ref(&buf[16..36]),
                peer_id: hash_ref(&buf[36..56]),
                downloaded: wire::be_u64(&buf[56..64]),
                left: wire::be_u64(&buf[64..72]),
                uploaded: wire::be_u64(&buf[72..80]),
                event: Event::from_udp(wire::be_u32(&buf[80..84])),
                num_want: want as i32,
                port: wire::be_u16(&buf[96..98]),
            };
            assert(a@ =~= announce_of(buf@));
            Ok(Request::Announce(a))
        },
        2 => {
            let whole: usize = (buf.len() - MIN_PACKET) / HASH_LEN;
            let full: usize = if whole <= MAX_SCRAPE_HASHES {
                whole
            } else {
                MAX_SCRAPE_HASHES
            };
            let s = Scrape {
                connection_id,
                transaction_id,
                hashes: &buf[MIN_PACKET..MIN_PACKET + full * HASH_LEN],
            };
            assert(s@ =~= scrape_of(buf@));
            Ok(Request::Scrape(s))
        },
        other => Err(ParseError::UnknownAction(other)),
    }
}

/// `out` with `b` written over it from position `at` on.
pub open spec fn overwritten(out: Seq<u8>, at: int, b: Seq<u8>) -> Seq<u8> {
    Seq::new(
        out.len(),
        |i: int|
            if at <= i < at + b.len() {
                b[i - at]
            } else {
                out[i]
            },
    )
}

/// Two neighbouring writes are one.
proof fn overwritten_add(out: Seq<u8>, a: Seq<u8>, b: Seq<u8>)
    ensures
        overwritten(overwritten(out, 0, a), a.len() as int, b) == overwritten(out, 0, a + b),
{
    assert(overwritten(overwritten(out, 0, a), a.len() as int, b) =~= overwritten(out, 0, a + b));
}

/// Write `b` over `out` from position `at` on.
fn put(out: &mut [u8], at: usize, b: &[u8])
    requires
        at + b@.len() <= old(out)@.len(),
    ensures
        final(out)@ == overwritten(old(out)@, at as int, b@),
{
    assert(out@.len() == out.len());
    let mut i: usize = 0;
    while i < b.len()
        invariant
            i <= b@.len(),
            old(out)@.len() <= usize::MAX,
            at + b@.len() <= old(out)@.len(),
            out@ =~= overwritten(old(out)@, at as int, b@.take(i as int)),
        decreases b@.len() - i,
    {
        out[at + i] = b[i];
        i = i + 1;
    }
    assert(b@.take(b@.len() as int) =~= b@);
}

/// The header of a response: action and transaction id.
pub open spec fn reply_header(action: nat, transaction_id: u32) -> Seq<u8> {
    wire::be_bytes(action, 4) + wire::be_bytes(transaction_id as nat, 4)
}

/// The `connect` response.
pub open spec fn connect_reply(transaction_id: u32, connection_id: u64) -> Seq<u8> {
    reply_header(0, transaction_id) + wire::be_bytes(connection_id as nat, 8)
}

/// The `announce` response.
pub open spec fn announce_reply(
    transaction_id: u32,
    interval: u32,
    leechers: u32,
    seeders: u32,
    peers: Seq<u8>,
) -> Seq<u8> {
    reply_header(1, transaction_id) + wire::be_bytes(interval as nat, 4) + wire::be_bytes(
        leechers as nat,
        4,
    ) + wire::be_bytes(seeders as nat, 4) + peers
}

/// One entry of a `scrape` response.
pub open spec fn scrape_entry(e: (u32, u32, u32)) -> Seq<u8> {
    wire::be_bytes(e.0 as nat, 4) + wire::be_bytes(e.1 as nat, 4) + wire::be_bytes(e.2 as nat, 4)
}

/// The entries of a `scrape` response.
pub open spec fn scrape_entries(entries: Seq<(u32, u32, u32)>) -> Seq<u8>
    decreases entries.len(),
{
    if entries.len() == 0 {
        Seq::empty()
    } else {
        scrape_entries(entries.drop_last()) + scrape_entry(entries.last())
    }
}

/// The `scrape` response.
pub open spec fn scrape_reply(transaction_id: u32, entries: Seq<(u32, u32, u32)>) -> Seq<u8> {
    reply_header(2, transaction_id) + scrape_entries(entries)
}

/// The `error` response.
pub open spec fn error_reply(transaction_id: u32, message: Seq<u8>) -> Seq<u8> {
    reply_header(3, transaction_id) + message
}

/// A `scrape` response has 12 bytes per entry.
pub proof fn scrape_entries_len(entries: Seq<(u32, u32, u32)>)
    ensures
        scrape_entries(entries).len() == 12 * entries.len(),
    decreases entries.len(),
{
    broadcast use wire::be_bytes_len;

    if entries.len() > 0 {
        scrape_entries_len(entries.drop_last());
    }
}

/// Write the header of a response.
fn write_header(out: &mut [u8], action: u32, transaction_id: u32)
    requires
        old(out)@.len() >= 8,
    ensures
        final(out)@ == overwritten(old(out)@, 0, reply_header(action as nat, transaction_id)),
{
    broadcast use wire::be_bytes_len;

    proof {
        overwritten_add(
            out@,
            wire::be_bytes(action as nat, 4),
            wire::be_bytes(transaction_id as nat, 4),
        );
    }
    put(out, 0, &wire::u32_be(action));
    put(out, 4, &wire::u32_be(transaction_id));
}

/// Write a 16-byte `connect` response into the first 16 bytes of `out`.
pub fn write_connect(out: &mut [u8], transaction_id: u32, connection_id: u64)
    requires
        old(out)@.len() >= 16,
    ensures
        final(out)@ == overwritten(old(out)@, 0, connect_reply(transaction_id, connection_id)),
{
    broadcast use wire::be_bytes_len;

    proof {
        overwritten_add(
            out@,
            reply_header(0, transaction_id),
            wire::be_bytes(connection_id as nat, 8),
        );
    }
    write_header(out, 0, transaction_id);
    put(out, 8, &wire::u64_be(connection_id));
}

/// Write an `announce` response (20-byte header + compact `peers`) into `out`.
///
/// Returns the number of bytes written. `out` must hold at least `20 + peers.len()` bytes.
pub fn write_announce(
    out: &mut [u8],
    transaction_id: u32,
    interval: u32,
    leechers: u32,
    seeders: u32,
    peers: &[u8],
) -> (r: usize)
    requires
        old(out)@.len() >= 20 + peers@.len(),
    ensures
        r == 20 + peers@.len(),
        r == announce_reply(transaction_id, interval, leechers, seeders, peers@).len(),
        final(out)@ == overwritten(
            old(out)@,
            0,
            announce_reply(transaction_id, interval, leechers, seeders, peers@),
        ),
{
    broadcast use wire::be_bytes_len;

    assert(out@.len() == out.len());
    proof {
        let b0 = reply_header(1, transaction_id);
        let b1 = b0 + wire::be_bytes(interval as nat, 4);
        let b2 = b1 + wire::be_bytes(leechers as nat, 4);
        let b3 = b2 + wire::be_bytes(seeders as nat, 4);
        overwritten_add(out@, b0, wire::be_bytes(interval as nat, 4));
        overwritten_add(out@, b1, wire::be_bytes(leechers as nat, 4));
        overwritten_add(out@, b2, wire::be_bytes(seeders as nat, 4));
        overwritten_add(out@, b3, peers@);
    }
    write_header(out, 1, transaction_id);
    put(out, 8, &wire::u32_be(interval));
    put(out, 12, &wire::u32_be(leechers));
    put(out, 16, &wire::u32_be(seeders));
    put(out, 20, peers);
    20 + peers.len()
}

/// Write a `scrape` response into `out`: 8-byte header then `(seeders, downloaded, leechers)`
/// (each big-endian `u32`) per requested hash. Returns bytes written.
pub fn write_scrape(out: &mut [u8], transaction_id: u32, entries: &[(u32, u32, u32)]) -> (r: usize)
    requires
        old(out)@.len() >= 8 + 12 * entries@.len(),
    ensures
        r == 8 + 12 * entries@.len(),
        r == scrape_reply(transaction_id, entries@).len(),
        final(out)@ == overwritten(old(out)@, 0, scrape_reply(transaction_id, entries@)),
{
    broadcast use wire::be_bytes_len;

    assert(out@.len() == out.len());
    write_header(out, 2, transaction_id);
    let ghost head = reply_header(2, transaction_id);
    let ghost start = old(out)@;
    assert(head + scrape_entries(Seq::empty()) =~= head);
    assert(entries@.take(0) =~= Seq::empty());
    let mut off: usize = 8;
    let mut i: usize = 0;
    while i < entries.len()
        invariant
            i <= entries@.len(),
            off == 8 + 12 * i,
            start.len() >= 8 + 12 * entries@.len(),
            start.len() <= usize::MAX,
            head.len() == 8,
            out@ == overwritten(start, 0, head + scrape_entries(entries@.take(i as int))),
        decreases entries@.len() - i,
    {
        let e: (u32, u32, u32) = entries[i];
        proof {
            let k = i as int;
            wire::be_bytes_len(e.0 as nat, 4);
            wire::be_bytes_len(e.1 as nat, 4);
            scrape_entries_len(entries@.take(k));
            assert(entries@.take(k + 1).drop_last() =~= entries@.take(k));
            let b0 = head + scrape_entries(entries@.take(k));
            let b1 = b0 + wire::be_bytes(e.0 as nat, 4);
            let b2 = b1 + wire::be_bytes(e.1 as nat, 4);
            let b3 = b2 + wire::be_bytes(e.2 as nat, 4);
            overwritten_add(start, b0, wire::be_bytes(e.0 as nat, 4));
            overwritten_add(start, b1, wire::be_bytes(e.1 as nat, 4));
            overwritten_add(start, b2, wire::be_bytes(e.2 as nat, 4));
            assert(b0.len() == off);
            assert(scrape_entries(entries@.take(k + 1)) == scrape_entries(entries@.take(k))
                + scrape_entry(e));
            assert(b3 =~= head + scrape_entries(entries@.take(k + 1)));
        }
        put(out, off, &wire::u32_be(e.0));
        put(out, off + 4, &wire::u32_be(e.1));
        put(out, off + 8, &wire::u32_be(e.2));
        off = off + 12;
        i = i + 1;
    }
    proof {
        assert(entries@.take(entries@.len() as int) =~= entries@);
        scrape_entries_len(entries@);
    }
    off
}

/// Write an `error` response (action 3) into `out`: 8-byte header then the message bytes.
/// Returns bytes written.
pub fn write_error(out: &mut [u8], transaction_id: u32, message: &[u8]) -> (r: usize)
    requires
        old(out)@.len() >= 8 + message@.len(),
    ensures
        r == 8 + message@.len(),
        r == error_reply(transaction_id, message@).len(),
        final(out)@ == overwritten(old(out)@, 0, error_reply(transaction_id, message@)),
{
    broadcast use wire::be_bytes_len;

    assert(out@.len() == out.len());
    proof {
        overwritten_add(out@, reply_header(3, transaction_id), message@);
    }
    write_header(out, 3, transaction_id);
    put(out, 8, message);
    8 + message.len()
}

/// A number of four bytes reads back.
proof fn reads_back_4(n: u32)
    ensures
        wire::be_nat(wire::be_bytes(n as nat, 4)) == n,
{
    reveal_with_fuel(wire::pow256, 5);
    wire::be_nat_of_be_bytes(n as nat, 4);
}

/// The header of a response reads back: action and transaction id.
proof fn header_reads_back(reply: Seq<u8>, action: u32, transaction_id: u32)
    requires
        reply.len() >= 8,
        reply.take(8) == reply_header(action as nat, transaction_id),
    ensures
        field(reply, 0, 4) == action,
        field(reply, 4, 8) == transaction_id,
{
    broadcast use wire::be_bytes_len;

    reads_back_4(action);
    reads_back_4(transaction_id);
    assert(reply.subrange(0, 4) =~= reply.take(8).subrange(0, 4));
    assert(reply.subrange(4, 8) =~= reply.take(8).subrange(4, 8));
    assert(reply.take(8).subrange(0, 4) =~= wire::be_bytes(action as nat, 4));
    assert(reply.take(8).subrange(4, 8) =~= wire::be_bytes(transaction_id as nat, 4));
}

/// A client reads its transaction id and the connection id back from a `connect` response.
pub proof fn connect_reply_reads_back(transaction_id: u32, connection_id: u64)
    ensures
        connect_reply(transaction_id, connection_id).len() == 16,
        field(connect_reply(transaction_id, connection_id), 0, 4) == 0,
        field(connect_reply(transaction_id, connection_id), 4, 8) == transaction_id,
        field(connect_reply(transaction_id, connection_id), 8, 16) == connection_id,
{
    broadcast use wire::be_bytes_len;

    let reply = connect_reply(transaction_id, connection_id);
    assert(reply.take(8) =~= reply_header(0, transaction_id));
    header_reads_back(reply, 0, transaction_id);
    assert(reply.subrange(8, 16) =~= wire::be_bytes(connection_id as nat, 8));
    reveal_with_fuel(wire::pow256, 9);
    wire::be_nat_of_be_bytes(connection_id as nat, 8);
}

/// A client reads its transaction id, the interval, the swarm counts and the peers back from an
/// `announce` response.
pub proof fn announce_reply_reads_back(
    transaction_id: u32,
    interval: u32,
    leechers: u32,
    seeders: u32,
    peers: Seq<u8>,
)
    ensures
        ({
            let reply = announce_reply(transaction_id, interval, leechers, seeders, peers);
            &&& field(reply, 0, 4) == 1
            &&& field(reply, 4, 8) == transaction_id
            &&& field(reply, 8, 12) == interval
            &&& field(reply, 12, 16) == leechers
            &&& field(reply, 16, 20) == seeders
            &&& reply.skip(20) == peers
        }),
{
    broadcast use wire::be_bytes_len;

    let reply = announce_reply(transaction_id, interval, leechers, seeders, peers);
    assert(reply.take(8) =~= reply_header(1, transaction_id));
    header_reads_back(reply, 1, transaction_id);
    reads_back_4(interval);
    reads_back_4(leechers);
    reads_back_4(seeders);
    assert(reply.subrange(8, 12) =~= wire::be_bytes(interval as nat, 4));
    assert(reply.subrange(12, 16) =~= wire::be_bytes(leechers as nat, 4));
    assert(reply.subrange(16, 20) =~= wire::be_bytes(seeders as nat, 4));
    assert(reply.skip(20) =~= peers);
}

/// The entries before a place take 12 bytes each.
proof fn scrape_entries_at(entries: Seq<(u32, u32, u32)>, i: int)
    requires
        0 <= i < entries.len(),
    ensures
        12 * i + 12 <= scrape_entries(entries).len(),
        scrape_entries(entries).subrange(12 * i, 12 * i + 12) == scrape_entry(entries[i]),
    decreases entries.len(),
{
    broadcast use wire::be_bytes_len;

    scrape_entries_len(entries);
    scrape_entries_len(entries.drop_last());
    let all = scrape_entries(entries);
    let head = scrape_entries(entries.drop_last());
    if i == entries.len() - 1 {
        assert(all.subrange(12 * i, 12 * i + 12) =~= scrape_entry(entries[i]));
    } else {
        scrape_entries_at(entries.drop_last(), i);
        assert(all.subrange(12 * i, 12 * i + 12) =~= head.subrange(12 * i, 12 * i + 12));
    }
}

/// A client reads the counts of each torrent that it asked for back from a `scrape` response, in
/// the order in which it asked.
pub proof fn scrape_reply_reads_back(
    transaction_id: u32,
    entries: Seq<(u32, u32, u32)>,
    i: int,
)
    requires
        0 <= i < entries.len(),
    ensures
        field(scrape_reply(transaction_id, entries), 0, 4) == 2,
        field(scrape_reply(transaction_id, entries), 4, 8) == transaction_id,
        field(scrape_reply(transaction_id, entries), 8 + 12 * i, 12 + 12 * i) == entries[i].0,
        field(scrape_reply(transaction_id, entries), 12 + 12 * i, 16 + 12 * i) == entries[i].1,
        field(scrape_reply(transaction_id, entries), 16 + 12 * i, 20 + 12 * i) == entries[i].2,
{
    broadcast use wire::be_bytes_len;

    let reply = scrape_reply(transaction_id, entries);
    let body = scrape_entries(entries);
    let e = entries[i];
    assert(reply.take(8) =~= reply_header(2, transaction_id));
    header_reads_back(reply, 2, transaction_id);
    scrape_entries_at(entries, i);
    reads_back_4(e.0);
    reads_back_4(e.1);
    reads_back_4(e.2);
    let part = body.subrange(12 * i, 12 * i + 12);
    assert(reply.subrange(8 + 12 * i, 12 + 12 * i) =~= part.subrange(0, 4));
    assert(reply.subrange(12 + 12 * i, 16 + 12 * i) =~= part.subrange(4, 8));
    assert(reply.subrange(16 + 12 * i, 20 + 12 * i) =~= part.subrange(8, 12));
    assert(part.subrange(0, 4) =~= wire::be_bytes(e.0 as nat, 4));
    assert(part.subrange(4, 8) =~= wire::be_bytes(e.1 as nat, 4));
    assert(part.subrange(8, 12) =~= wire::be_bytes(e.2 as nat, 4));
}

} // verus!

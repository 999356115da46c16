//! Minimal bencode writer plus the exact tracker response bodies (announce / scrape / failure).
//!
//! Only the small surface the HTTP tracker needs: this is a writer, not a general parser.

use vstd::prelude::*;

use crate::decimal;
use crate::store::Counts;
use crate::text;
use crate::InfoHash;

verus! {

/// What opens an integer: `i`.
pub const INT: u8 = 0x69;

/// What opens a dictionary: `d`.
pub const DICT: u8 = 0x64;

/// What opens a list: `l`.
pub const LIST: u8 = 0x6c;

/// What closes an integer, a dictionary or a list: `e`.
pub const END: u8 = 0x65;

/// A bencoded integer: `i<n>e`.
pub open spec fn ben_int(v: nat) -> Seq<u8> {
    seq![INT] + text::utf8(decimal::decimal(v)) + seq![END]
}

/// A bencoded byte string: `<len>:<bytes>`.
pub open spec fn ben_bytes(b: Seq<u8>) -> Seq<u8> {
    text::utf8(decimal::decimal(b.len())) + seq![text::COLON] + b
}

/// A bencoded text string.
pub open spec fn ben_text(s: Seq<char>) -> Seq<u8> {
    ben_bytes(text::utf8(s))
}

/// What opens a dictionary: `d`.
pub open spec fn ben_dict() -> Seq<u8> {
    seq![DICT]
}

/// What opens a list: `l`.
pub open spec fn ben_list() -> Seq<u8> {
    seq![LIST]
}

/// What closes a dictionary or list: `e`.
pub open spec fn ben_end() -> Seq<u8> {
    seq![END]
}

/// A dictionary entry with an integer value.
pub open spec fn int_entry(key: Seq<char>, v: nat) -> Seq<u8> {
    ben_text(key) + ben_int(v)
}

/// A dictionary entry with a byte string value.
pub open spec fn bytes_entry(key: Seq<char>, b: Seq<u8>) -> Seq<u8> {
    ben_text(key) + ben_bytes(b)
}

/// A torrent's counters as dictionary entries.
pub open spec fn counts_entries(counts: Counts) -> Seq<u8> {
    int_entry("complete"@, counts.complete as nat) + int_entry(
        "downloaded"@,
        counts.downloaded as nat,
    ) + int_entry("incomplete"@, counts.incomplete as nat)
}

/// The body of an announce response.
pub open spec fn announce_body(
    counts: Counts,
    interval: u32,
    peers4: Seq<u8>,
    peers6: Seq<u8>,
) -> Seq<u8> {
    ben_dict() + counts_entries(counts) + int_entry("interval"@, interval as nat) + int_entry(
        "min interval"@,
        interval as nat / 2,
    ) + bytes_entry("peers"@, peers4) + bytes_entry("peers6"@, peers6) + ben_end()
}

/// One file of a scrape response: its info-hash and counts.
pub open spec fn scrape_file(hash: Seq<u8>, counts: Counts) -> Seq<u8> {
    ben_bytes(hash) + ben_dict() + counts_entries(counts) + ben_end()
}

/// The files of a scrape response.
pub open spec fn scrape_files(files: Seq<(Seq<u8>, Counts)>) -> Seq<u8>
    decreases files.len(),
{
    if files.len() == 0 {
        Seq::empty()
    } else {
        scrape_files(files.drop_last()) + scrape_file(files.last().0, files.last().1)
    }
}

/// The body of a scrape response.
pub open spec fn scrape_body(files: Seq<(Seq<u8>, Counts)>) -> Seq<u8> {
    ben_dict() + ben_text("files"@) + ben_dict() + scrape_files(files) + ben_end() + ben_end()
}

/// The body of a failure.
pub open spec fn failure_body(reason: Seq<u8>) -> Seq<u8> {
    ben_dict() + bytes_entry("failure reason"@, reason) + ben_end()
}

/// A streaming bencode writer over a caller-owned byte buffer.
pub struct Encoder<'a> {
    /// The buffer that is written to.
    pub out: &'a mut Vec<u8>,
}

impl<'a> Encoder<'a> {
    /// Wrap an output buffer.
    pub fn new(out: &'a mut Vec<u8>) -> (e: Self)
        ensures
            e.out@ == old(out)@,
            final(e.out)@ == final(out)@,
    {
        Encoder { out }
    }

    /// Write a bencoded integer (`i<n>e`).
    pub fn integer(&mut self, v: u64) -> (r: &mut Self)
        ensures
            r.out@ == old(self).out@ + ben_int(v as nat),
            *final(r.out) == *final(old(self).out),
            *final(r) == *final(self),
    {
        let ghost start = self.out@;
        self.out.push(INT);
        self.write_uint(v);
        self.out.push(END);
        assert(self.out@ =~= start + ben_int(v as nat));
        self
    }

    /// Write a bencoded byte string (`<len>:<bytes>`).
    pub fn bytes(&mut self, b: &[u8]) -> (r: &mut Self)
        ensures
            r.out@ == old(self).out@ + ben_bytes(b@),
            *final(r.out) == *final(old(self).out),
            *final(r) == *final(self),
    {
        let ghost start = self.out@;
        self.write_uint(b.len() as u64);
        self.out.push(text::COLON);
        self.out.extend_from_slice(b);
        assert(self.out@ =~= start + ben_bytes(b@));
        self
    }

    /// Open a dictionary (`d`).
    pub fn dict(&mut self) -> (r: &mut Self)
        ensures
            r.out@ == old(self).out@ + ben_dict(),
            *final(r.out) == *final(old(self).out),
            *final(r) == *final(self),
    {
        let ghost start = self.out@;
        self.out.push(DICT);
        assert(self.out@ =~= start + ben_dict());
        self
    }

    /// Open a list (`l`).
    pub fn list(&mut self) -> (r: &mut Self)
        ensures
            r.out@ == old(self).out@ + ben_list(),
            *final(r.out) == *final(old(self).out),
            *final(r) == *final(self),
    {
        let ghost start = self.out@;
        self.out.push(LIST);
        assert(self.out@ =~= start + ben_list());
        self
    }

    /// Close the current dictionary or list (`e`).
    pub fn end(&mut self) -> (r: &mut Self)
        ensures
            r.out@ == old(self).out@ + ben_end(),
            *final(r.out) == *final(old(self).out),
            *final(r) == *final(self),
    {
        let ghost start = self.out@;
        self.out.push(END);
        assert(self.out@ =~= start + ben_end());
        self
    }

    fn write_uint(&mut self, v: u64)
        ensures
            final(self).out@ == old(self).out@ + text::utf8(decimal::decimal(v as nat)),
            *final(final(self).out) == *final(old(self).out),
    {
        let digits = decimal::format_u64(v);
        self.out.extend_from_slice(digits.as_str().as_bytes());
    }
}

/// Appending twice is appending once.
proof fn append_assoc(start: Seq<u8>, body: Seq<u8>, part: Seq<u8>)
    ensures
        (start + body) + part == start + (body + part),
{
    assert((start + body) + part =~= start + (body + part));
}

/// Write a dictionary entry with an integer value.
fn write_int_entry(out: &mut Vec<u8>, key: &str, v: u64)
    ensures
        final(out)@ == old(out)@ + int_entry(key@, v as nat),
{
    proof {
        append_assoc(out@, ben_text(key@), ben_int(v as nat));
    }
    Encoder::new(out).bytes(key.as_bytes()).integer(v);
}

/// Write a dictionary entry with a byte string value.
fn write_bytes_entry(out: &mut Vec<u8>, key: &str, b: &[u8])
    ensures
        final(out)@ == old(out)@ + bytes_entry(key@, b@),
{
    proof {
        append_assoc(out@, ben_text(key@), ben_bytes(b@));
    }
    Encoder::new(out).bytes(key.as_bytes()).bytes(b);
}

/// Write a torrent's counters as dictionary entries.
fn write_counts(out: &mut Vec<u8>, counts: Counts)
    ensures
        final(out)@ == old(out)@ + counts_entries(counts),
{
    let ghost a = int_entry("complete"@, counts.complete as nat);
    let ghost b = int_entry("downloaded"@, counts.downloaded as nat);
    let ghost c = int_entry("incomplete"@, counts.incomplete as nat);
    proof {
        append_assoc(out@, a, b);
        append_assoc(out@, a + b, c);
    }
    write_int_entry(out, "complete", counts.complete as u64);
    write_int_entry(out, "downloaded", counts.downloaded as u64);
    write_int_entry(out, "incomplete", counts.incomplete as u64);
}

/// Write an HTTP announce response body: counts, intervals, and the compact peer strings.
///
/// `interval` is the (jittered) announce interval; `min interval` is half of it.
pub fn announce_response(
    out: &mut Vec<u8>,
    counts: Counts,
    interval: u32,
    peers4: &[u8],
    peers6: &[u8],
)
    ensures
        final(out)@ == old(out)@ + announce_body(counts, interval, peers4@, peers6@),
{
    proof {
        let b0 = ben_dict();
        let b1 = b0 + counts_entries(counts);
        let b2 = b1 + int_entry("interval"@, interval as nat);
        let b3 = b2 + int_entry("min interval"@, interval as nat / 2);
        let b4 = b3 + bytes_entry("peers"@, peers4@);
        let b5 = b4 + bytes_entry("peers6"@, peers6@);
        append_assoc(out@, b0, counts_entries(counts));
        append_assoc(out@, b1, int_entry("interval"@, interval as nat));
        append_assoc(out@, b2, int_entry("min interval"@, interval as nat / 2));
        append_assoc(out@, b3, bytes_entry("peers"@, peers4@));
        append_assoc(out@, b4, bytes_entry("peers6"@, peers6@));
        append_assoc(out@, b5, ben_end());
    }
    Encoder::new(out).dict();
    write_counts(out, counts);
    write_int_entry(out, "interval", interval as u64);
    write_int_entry(out, "min interval", (interval / 2) as u64);
    write_bytes_entry(out, "peers", peers4);
    write_bytes_entry(out, "peers6", peers6);
    Encoder::new(out).end();
}

/// Write one file of a scrape response.
fn write_file(out: &mut Vec<u8>, hash: &InfoHash, counts: Counts)
    ensures
        final(out)@ == old(out)@ + scrape_file(hash@, counts),
{
    proof {
        let b0 = ben_bytes(hash@);
        let b1 = b0 + ben_dict();
        let b2 = b1 + counts_entries(counts);
        append_assoc(out@, b0, ben_dict());
        append_assoc(out@, b1, counts_entries(counts));
        append_assoc(out@, b2, ben_end());
    }
    Encoder::new(out).bytes(hash).dict();
    write_counts(out, counts);
    Encoder::new(out).end();
}

/// The files as their bytes and counts.
pub open spec fn files_view(files: Seq<(&InfoHash, Counts)>) -> Seq<(Seq<u8>, Counts)> {
    files.map_values(|f: (&InfoHash, Counts)| (f.0@, f.1))
}

/// Write an HTTP scrape response body for the given `(hash, counts)` files.
pub fn scrape_response(out: &mut Vec<u8>, files: &[(&InfoHash, Counts)])
    ensures
        final(out)@ == old(out)@ + scrape_body(files_view(files@)),
{
    let ghost start = out@;
    let ghost fs = files_view(files@);
    Encoder::new(out).dict().bytes("files".as_bytes()).dict();
    let ghost head = out@;
    assert(fs.take(0) =~= Seq::empty());
    assert(head + scrape_files(Seq::empty()) =~= head);
    let mut i: usize = 0;
    while i < files.len()
        invariant
            i <= files@.len(),
            fs == files_view(files@),
            out@ == head + scrape_files(fs.take(i as int)),
        decreases files@.len() - i,
    {
        write_file(out, files[i].0, files[i].1);
        proof {
            let k = i as int;
            assert(fs.take(k + 1).drop_last() =~= fs.take(k));
            assert(fs.take(k + 1).last() == (files@[k].0@, files@[k].1));
            assert(out@ =~= head + scrape_files(fs.take(k + 1)));
        }
        i = i + 1;
    }
    Encoder::new(out).end().end();
    proof {
        assert(fs.take(fs.len() as int) =~= fs);
        assert(out@ =~= start + scrape_body(fs));
    }
}

/// Write a bencoded `failure reason` body.
pub fn failure(out: &mut Vec<u8>, reason: &[u8])
    ensures
        final(out)@ == old(out)@ + failure_body(reason@),
{
    let ghost start = out@;
    Encoder::new(out).dict();
    write_bytes_entry(out, "failure reason", reason);
    Encoder::new(out).end();
    assert(out@ =~= start + failure_body(reason@));
}

/// What a failure body begins with: a dictionary whose first key is `failure reason`.
pub open spec fn failure_head() -> Seq<u8> {
    ben_dict() + ben_text("failure reason"@)
}

/// Whether a body is that of a failure.
pub open spec fn is_failure_body(body: Seq<u8>) -> bool {
    text::begins(body, failure_head())
}

/// Whether a response body reports a failure.
#[must_use]
pub fn is_failure(body: &[u8]) -> (r: bool)
    ensures
        r == is_failure_body(body@),
{
    let mut head: Vec<u8> = Vec::new();
    Encoder::new(&mut head).dict().bytes("failure reason".as_bytes());
    assert(head@ =~= failure_head());
    text::starts_with(body, head.as_slice())
}

/// A text key begins with the first digit of its length.
proof fn key_begins(key: Seq<char>, n: nat)
    requires
        vstd::utf8::is_ascii_chars(key),
        key.len() == n,
    ensures
        ben_text(key).len() > 0,
        ben_text(key)[0] == decimal::decimal(n)[0] as u8,
{
    vstd::utf8::is_ascii_chars_encode_utf8(key);
    decimal::decimal_bytes(n);
    reveal_with_fuel(decimal::decimal, 2);
}

/// A failure is told from an answer: its body says so, and no announce or scrape body does.
pub proof fn failures_are_told_from_answers(
    reason: Seq<u8>,
    counts: Counts,
    interval: u32,
    peers4: Seq<u8>,
    peers6: Seq<u8>,
    files: Seq<(Seq<u8>, Counts)>,
)
    ensures
        is_failure_body(failure_body(reason)),
        !is_failure_body(announce_body(counts, interval, peers4, peers6)),
        !is_failure_body(scrape_body(files)),
{
    let head = failure_head();
    reveal_strlit("failure reason");
    reveal_strlit("complete");
    reveal_strlit("files");
    key_begins("failure reason"@, 14);
    key_begins("complete"@, 8);
    key_begins("files"@, 5);
    reveal_with_fuel(decimal::decimal, 3);
    assert(decimal::decimal(14)[0] == '1');
    assert(decimal::decimal(8)[0] == '8');
    assert(decimal::decimal(5)[0] == '5');
    assert(head[1] == '1' as u8);
    assert(failure_body(reason).take(head.len() as int) =~= head);
    let answer = announce_body(counts, interval, peers4, peers6);
    assert(counts_entries(counts)[0] == '8' as u8);
    assert(answer[1] == '8' as u8);
    assert(scrape_body(files)[1] == '5' as u8);
    if is_failure_body(answer) {
        assert(answer.take(head.len() as int)[1] == answer[1]);
    }
    if is_failure_body(scrape_body(files)) {
        assert(scrape_body(files).take(head.len() as int)[1] == scrape_body(files)[1]);
    }
}

} // verus!

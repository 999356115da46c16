//! What the bencoded bodies look like, byte by byte.

use vstd::prelude::*;

use crate::bencode;
use crate::decimal;
use crate::store::Counts;
use crate::text;

verus! {

/// A labelled integer: the label, `i`, the number, `e`.
pub open spec fn int_item(label: Seq<char>, v: nat) -> Seq<u8> {
    text::utf8(label) + (seq![0x69u8] + text::utf8(decimal::decimal(v)) + seq![0x65u8])
}

/// A labelled byte string: the label, the length, `:`, the bytes.
pub open spec fn bytes_item(label: Seq<char>, b: Seq<u8>) -> Seq<u8> {
    text::utf8(label) + (text::utf8(decimal::decimal(b.len())) + seq![0x3au8] + b)
}

/// The counters of a torrent, labelled.
pub open spec fn count_items(complete: nat, downloaded: nat, incomplete: nat) -> Seq<u8> {
    int_item("8:complete"@, complete) + int_item("10:downloaded"@, downloaded) + int_item(
        "10:incomplete"@,
        incomplete,
    )
}

/// A key of up to 99 characters is written with its length before it.
proof fn key_is_labelled(key: Seq<char>, label: Seq<char>)
    requires
        key.len() < 100,
        vstd::utf8::is_ascii_chars(key),
        vstd::utf8::is_ascii_chars(label),
        label == decimal::decimal(key.len()) + seq![':'] + key,
    ensures
        bencode::ben_text(key) == text::utf8(label),
{
    let n = key.len();
    vstd::utf8::is_ascii_chars_encode_utf8(key);
    vstd::utf8::is_ascii_chars_encode_utf8(label);
    decimal::decimal_bytes(n);
    reveal_with_fuel(decimal::decimal, 3);
    let d = decimal::decimal(n);
    let written = bencode::ben_text(key);
    assert(written.len() == label.len());
    assert forall|i: int| 0 <= i < label.len() implies written[i] == text::utf8(label)[i] by {
        assert(text::utf8(label)[i] == label[i] as u8);
        if i < d.len() {
            assert(label[i] == d[i]);
            assert(text::utf8(d)[i] == d[i] as u8);
        } else if i > d.len() {
            assert(label[i] == key[i - d.len() - 1]);
            assert(text::utf8(key)[i - d.len() - 1] == key[i - d.len() - 1] as u8);
        }
    }
    assert(written =~= text::utf8(label));
}

/// The keys of the bodies, with their lengths.
proof fn keys_are_labelled()
    ensures
        bencode::ben_text("complete"@) == text::utf8("8:complete"@),
        bencode::ben_text("downloaded"@) == text::utf8("10:downloaded"@),
        bencode::ben_text("incomplete"@) == text::utf8("10:incomplete"@),
        bencode::ben_text("interval"@) == text::utf8("8:interval"@),
        bencode::ben_text("min interval"@) == text::utf8("12:min interval"@),
        bencode::ben_text("peers"@) == text::utf8("5:peers"@),
        bencode::ben_text("peers6"@) == text::utf8("6:peers6"@),
        bencode::ben_text("files"@) == text::utf8("5:files"@),
        bencode::ben_text("failure reason"@) == text::utf8("14:failure reason"@),
{
    reveal_with_fuel(decimal::decimal, 3);
    assert(bencode::ben_text("complete"@) == text::utf8("8:complete"@)) by {
        reveal_strlit("complete");
        reveal_strlit("8:complete");
        assert("8:complete"@ =~= decimal::decimal(8) + seq![':'] + "complete"@);
        key_is_labelled("complete"@, "8:complete"@);
    }
    assert(bencode::ben_text("downloaded"@) == text::utf8("10:downloaded"@)) by {
        reveal_strlit("downloaded");
        reveal_strlit("10:downloaded");
        assert("10:downloaded"@ =~= decimal::decimal(10) + seq![':'] + "downloaded"@);
        key_is_labelled("downloaded"@, "10:downloaded"@);
    }
    assert(bencode::ben_text("incomplete"@) == text::utf8("10:incomplete"@)) by {
        reveal_strlit("incomplete");
        reveal_strlit("10:incomplete");
        assert("10:incomplete"@ =~= decimal::decimal(10) + seq![':'] + "incomplete"@);
        key_is_labelled("incomplete"@, "10:incomplete"@);
    }
    assert(bencode::ben_text("interval"@) == text::utf8("8:interval"@)) by {
        reveal_strlit("interval");
        reveal_strlit("8:interval");
        assert("8:interval"@ =~= decimal::decimal(8) + seq![':'] + "interval"@);
        key_is_labelled("interval"@, "8:interval"@);
    }
    assert(bencode::ben_text("min interval"@) == text::utf8("12:min interval"@)) by {
        reveal_strlit("min interval");
        reveal_strlit("12:min interval");
        assert("12:min interval"@ =~= decimal::decimal(12) + seq![':'] + "min interval"@);
        key_is_labelled("min interval"@, "12:min interval"@);
    }
    assert(bencode::ben_text("peers"@) == text::utf8("5:peers"@)) by {
        reveal_strlit("peers");
        reveal_strlit("5:peers");
        assert("5:peers"@ =~= decimal::decimal(5) + seq![':'] + "peers"@);
        key_is_labelled("peers"@, "5:peers"@);
    }
    assert(bencode::ben_text("peers6"@) == text::utf8("6:peers6"@)) by {
        reveal_strlit("peers6");
        reveal_strlit("6:peers6");
        assert("6:peers6"@ =~= decimal::decimal(6) + seq![':'] + "peers6"@);
        key_is_labelled("peers6"@, "6:peers6"@);
    }
    assert(bencode::ben_text("files"@) == text::utf8("5:files"@)) by {
        reveal_strlit("files");
        reveal_strlit("5:files");
        assert("5:files"@ =~= decimal::decimal(5) + seq![':'] + "files"@);
        key_is_labelled("files"@, "5:files"@);
    }
    assert(bencode::ben_text("failure reason"@) == text::utf8("14:failure reason"@)) by {
        reveal_strlit("failure reason");
        reveal_strlit("14:failure reason");
        assert("14:failure reason"@ =~= decimal::decimal(14) + seq![':'] + "failure reason"@);
        key_is_labelled("failure reason"@, "14:failure reason"@);
    }
}

/// The body of an announce response, item by item: the counters, the interval and half of it, the
/// IPv4 peers under `peers` and the IPv6 peers under `peers6`.
pub proof fn announce_body_has_its_items(
    counts: Counts,
    interval: u32,
    peers4: Seq<u8>,
    peers6: Seq<u8>,
)
    ensures
        bencode::announce_body(counts, interval, peers4, peers6) == seq![0x64u8] + count_items(
            counts.complete as nat,
            counts.downloaded as nat,
            counts.incomplete as nat,
        ) + int_item("8:interval"@, interval as nat) + int_item(
            "12:min interval"@,
            (interval / 2) as nat,
        ) + bytes_item("5:peers"@, peers4) + bytes_item("6:peers6"@, peers6) + seq![0x65u8],
{
    keys_are_labelled();
}

/// The body of a scrape response, item by item.
pub proof fn scrape_body_has_its_items(files: Seq<(Seq<u8>, Counts)>)
    ensures
        bencode::scrape_body(files) == seq![0x64u8] + text::utf8("5:files"@) + seq![0x64u8]
            + bencode::scrape_files(files) + seq![0x65u8] + seq![0x65u8],
{
    keys_are_labelled();
}

/// Each file of a scrape response follows those before it: its hash, and its counters.
pub proof fn scrape_files_follow_each_other(
    files: Seq<(Seq<u8>, Counts)>,
    hash: Seq<u8>,
    counts: Counts,
)
    ensures
        bencode::scrape_files(Seq::empty()) == Seq::<u8>::empty(),
        bencode::scrape_files(files.push((hash, counts))) == bencode::scrape_files(files) + (
        text::utf8(decimal::decimal(hash.len())) + seq![0x3au8] + hash + seq![0x64u8] + count_items(
            counts.complete as nat,
            counts.downloaded as nat,
            counts.incomplete as nat,
        ) + seq![0x65u8]),
{
    keys_are_labelled();
    assert(files.push((hash, counts)).drop_last() =~= files);
}

/// The body of a failure gives the reason.
pub proof fn failure_body_gives_the_reason(reason: Seq<u8>)
    ensures
        bencode::failure_body(reason) == seq![0x64u8] + bytes_item("14:failure reason"@, reason)
            + seq![0x65u8],
{
    keys_are_labelled();
}

} // verus!

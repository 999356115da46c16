//! What the directives of a configuration say.

use vstd::prelude::*;

use crate::addr;
use crate::addr::{IpView, SocketView};
use crate::chars;
use crate::config;
use crate::config::{ConfigView, ErrorView};
use crate::l7;
use crate::laws::chars as chars_laws;
use crate::text;

verus! {

/// A failure: what was wrong, the value as it is shown, and the line.
pub open spec fn failed(what: Seq<char>, val: Seq<char>, line: nat) -> Result<
    ConfigView,
    ErrorView,
> {
    Err(ErrorView { line, message: what + config::debug_quoted(val) })
}

/// The listen directives add an address to the list of their kind, `listen.tcp_udp` to both. An
/// address without a port gets the tracker's own, 6969. What is no address is a failure.
pub proof fn listen_directives_add_addresses(c: ConfigView, val: Seq<char>, line: nat)
    ensures
        ({
            let bytes = chars::ascii(val);
            let found = match addr::socket_of(bytes) {
                Some(a) => Some(a),
                None => match addr::ip_of(bytes) {
                    Some(IpView::V4(o)) => Some(SocketView::V4 { ip: o, port: 6969 }),
                    Some(IpView::V6(o)) => Some(
                        SocketView::V6 { ip: o, port: 6969, scope_id: 0 },
                    ),
                    None => None,
                },
            };
            let udp = config::with_directive(c, "listen.udp"@, val, line);
            let tcp = config::with_directive(c, "listen.tcp"@, val, line);
            let both = config::with_directive(c, "listen.tcp_udp"@, val, line);
            let fault = failed("invalid listen address: "@, val, line);
            match found {
                Some(a) => {
                    &&& udp == Ok::<ConfigView, ErrorView>(
                        ConfigView { udp_listen: c.udp_listen.push(a), ..c },
                    )
                    &&& tcp == Ok::<ConfigView, ErrorView>(
                        ConfigView { tcp_listen: c.tcp_listen.push(a), ..c },
                    )
                    &&& both == Ok::<ConfigView, ErrorView>(
                        ConfigView {
                            udp_listen: c.udp_listen.push(a),
                            tcp_listen: c.tcp_listen.push(a),
                            ..c
                        },
                    )
                },
                None => udp == fault && tcp == fault && both == fault,
            }
        }),
{
    reveal(config::with_directive);
    config::keys_name_their_directives("listen.udp"@);
    config::keys_name_their_directives("listen.tcp"@);
    config::keys_name_their_directives("listen.tcp_udp"@);
}

/// The metrics address is a full socket address, or a failure.
pub proof fn metrics_directive_sets_the_address(c: ConfigView, val: Seq<char>, line: nat)
    ensures
        config::with_directive(c, "metrics.listen"@, val, line) == (match addr::socket_of(
            chars::ascii(val),
        ) {
            Some(a) => Ok::<ConfigView, ErrorView>(ConfigView { metrics_listen: Some(a), ..c }),
            None => failed("invalid value: "@, val, line),
        }),
{
    reveal(config::with_directive);
    config::keys_name_their_directives("metrics.listen"@);
}

/// `listen.udp.workers` sets its number, or is a failure.
pub proof fn udp_workers_directive_sets_the_number(c: ConfigView, val: Seq<char>, line: nat)
    ensures
        config::with_directive(c, "listen.udp.workers"@, val, line) == (match text::number(
            chars::ascii(val),
            usize::MAX as nat,
        ) {
            Some(n) => Ok::<ConfigView, ErrorView>(ConfigView { udp_workers: n as usize, ..c }),
            None => failed("invalid value: "@, val, line),
        }),
{
    reveal(config::with_directive);
    config::keys_name_their_directives("listen.udp.workers"@);
}

/// `listen.udp.rcvbuf` sets its number, or is a failure.
pub proof fn udp_rcvbuf_directive_sets_the_number(c: ConfigView, val: Seq<char>, line: nat)
    ensures
        config::with_directive(c, "listen.udp.rcvbuf"@, val, line) == (match text::number(
            chars::ascii(val),
            usize::MAX as nat,
        ) {
            Some(n) => Ok::<ConfigView, ErrorView>(ConfigView { udp_rcvbuf: Some(n as usize), ..c }),
            None => failed("invalid value: "@, val, line),
        }),
{
    reveal(config::with_directive);
    config::keys_name_their_directives("listen.udp.rcvbuf"@);
}

/// `udp.connid_window` sets its number, or is a failure.
pub proof fn connid_window_directive_sets_the_number(c: ConfigView, val: Seq<char>, line: nat)
    ensures
        config::with_directive(c, "udp.connid_window"@, val, line) == (match text::number(
            chars::ascii(val),
            u32::MAX as nat,
        ) {
            Some(n) => Ok::<ConfigView, ErrorView>(ConfigView { connid_window: n as u32, ..c }),
            None => failed("invalid value: "@, val, line),
        }),
{
    reveal(config::with_directive);
    config::keys_name_their_directives("udp.connid_window"@);
}

/// `l7.reannounce_min_interval` sets the detector's tunable, or is a failure.
pub proof fn reannounce_min_interval_directive_sets_the_tunable(c: ConfigView, val: Seq<char>, line: nat)
    ensures
        config::with_directive(c, "l7.reannounce_min_interval"@, val, line) == (match text::number(
            chars::ascii(val),
            u32::MAX as nat,
        ) {
            Some(n) => Ok::<ConfigView, ErrorView>(
                ConfigView { l7: l7::Config { reannounce_min_interval: n as u32, ..c.l7 }, ..c },
            ),
            None => failed("invalid value: "@, val, line),
        }),
{
    reveal(config::with_directive);
    config::keys_name_their_directives("l7.reannounce_min_interval"@);
}

/// `l7.score_ban_threshold` sets the detector's tunable, or is a failure.
pub proof fn score_ban_threshold_directive_sets_the_tunable(c: ConfigView, val: Seq<char>, line: nat)
    ensures
        config::with_directive(c, "l7.score_ban_threshold"@, val, line) == (match text::number(
            chars::ascii(val),
            u32::MAX as nat,
        ) {
            Some(n) => Ok::<ConfigView, ErrorView>(
                ConfigView { l7: l7::Config { score_ban_threshold: n as u32, ..c.l7 }, ..c },
            ),
            None => failed("invalid value: "@, val, line),
        }),
{
    reveal(config::with_directive);
    config::keys_name_their_directives("l7.score_ban_threshold"@);
}

/// `l7.ban_duration` sets the detector's tunable, or is a failure.
pub proof fn ban_duration_directive_sets_the_tunable(c: ConfigView, val: Seq<char>, line: nat)
    ensures
        config::with_directive(c, "l7.ban_duration"@, val, line) == (match text::number(
            chars::ascii(val),
            u32::MAX as nat,
        ) {
            Some(n) => Ok::<ConfigView, ErrorView>(
                ConfigView { l7: l7::Config { ban_duration: n as u32, ..c.l7 }, ..c },
            ),
            None => failed("invalid value: "@, val, line),
        }),
{
    reveal(config::with_directive);
    config::keys_name_their_directives("l7.ban_duration"@);
}

/// `l7.max_entries` sets the detector's tunable, or is a failure.
pub proof fn max_entries_directive_sets_the_tunable(c: ConfigView, val: Seq<char>, line: nat)
    ensures
        config::with_directive(c, "l7.max_entries"@, val, line) == (match text::number(
            chars::ascii(val),
            usize::MAX as nat,
        ) {
            Some(n) => Ok::<ConfigView, ErrorView>(
                ConfigView { l7: l7::Config { max_entries: n as usize, ..c.l7 }, ..c },
            ),
            None => failed("invalid value: "@, val, line),
        }),
{
    reveal(config::with_directive);
    config::keys_name_their_directives("l7.max_entries"@);
}

/// The switches are on for `1`, `true` and `yes`, off for `0`, `false` and `no`, and a failure for
/// anything else.
pub proof fn switches_are_on_or_off(c: ConfigView, val: Seq<char>, line: nat)
    ensures
        ({
            let on = val == "1"@ || val == "true"@ || val == "yes"@;
            let off = val == "0"@ || val == "false"@ || val == "no"@;
            let l7 = config::with_directive(c, "l7.enable"@, val, line);
            let nft = config::with_directive(c, "nft.enable"@, val, line);
            let fault = failed("expected a boolean, got "@, val, line);
            &&& on ==> l7 == Ok::<ConfigView, ErrorView>(ConfigView { l7_enable: true, ..c }) && nft
                == Ok::<ConfigView, ErrorView>(ConfigView { nft_enable: true, ..c })
            &&& off ==> l7 == Ok::<ConfigView, ErrorView>(ConfigView { l7_enable: false, ..c })
                && nft == Ok::<ConfigView, ErrorView>(ConfigView { nft_enable: false, ..c })
            &&& !on && !off ==> l7 == fault && nft == fault
        }),
{
    reveal(config::with_directive);
    config::keys_name_their_directives("l7.enable"@);
    config::keys_name_their_directives("nft.enable"@);
    reveal_strlit("1");
    reveal_strlit("true");
    reveal_strlit("yes");
    reveal_strlit("0");
    reveal_strlit("false");
    reveal_strlit("no");
    assert("1"@[0] == '1' && "0"@[0] == '0');
}

/// The textual directives set their texts as they are.
pub proof fn texts_are_set_as_they_are(c: ConfigView, val: Seq<char>, line: nat)
    ensures
        config::with_directive(c, "tracker.redirect_url"@, val, line) == Ok::<
            ConfigView,
            ErrorView,
        >(ConfigView { redirect_url: Some(val), ..c }),
        config::with_directive(c, "tracker.rootdir"@, val, line) == Ok::<ConfigView, ErrorView>(
            ConfigView { rootdir: Some(val), ..c },
        ),
        config::with_directive(c, "tracker.user"@, val, line) == Ok::<ConfigView, ErrorView>(
            ConfigView { user: Some(val), ..c },
        ),
        config::with_directive(c, "nft.table"@, val, line) == Ok::<ConfigView, ErrorView>(
            ConfigView { nft_table: val, ..c },
        ),
        config::with_directive(c, "nft.set4"@, val, line) == Ok::<ConfigView, ErrorView>(
            ConfigView { nft_set4: val, ..c },
        ),
        config::with_directive(c, "nft.set6"@, val, line) == Ok::<ConfigView, ErrorView>(
            ConfigView { nft_set6: val, ..c },
        ),
{
    reveal(config::with_directive);
    config::keys_name_their_directives("tracker.redirect_url"@);
    config::keys_name_their_directives("tracker.rootdir"@);
    config::keys_name_their_directives("tracker.user"@);
    config::keys_name_their_directives("nft.table"@);
    config::keys_name_their_directives("nft.set4"@);
    config::keys_name_their_directives("nft.set6"@);
}

/// A line is its first word as the key and the rest, bared, as the value; whitespace around and
/// between them does not matter. A key alone has an empty value.
pub proof fn line_is_key_and_value(
    c: ConfigView,
    before: Seq<char>,
    key: Seq<char>,
    between: Seq<char>,
    value: Seq<char>,
    after: Seq<char>,
    line: nat,
)
    requires
        chars_laws::blank(before),
        chars_laws::solid(key),
        key.len() > 0,
        key[0] != '#',
        chars_laws::blank(between),
        between.len() > 0,
        chars_laws::bare(value),
        value.len() > 0,
        chars_laws::blank(after),
    ensures
        config::with_line(c, before + (key + between + value) + after, line)
            == config::with_directive(c, key, value, line),
        config::with_line(c, before + key + after, line) == config::with_directive(
            c,
            key,
            Seq::empty(),
            line,
        ),
{
    let m = key + between + value;
    assert(!chars::white(key[0]));
    assert(!chars::white(key[key.len() - 1]));
    assert(m[0] == key[0]);
    assert(m.last() == value.last());
    chars_laws::trimming_bares(before, m, after);
    chars_laws::trimming_bares(before, key, after);
    chars_laws::directive_is_word_and_value(key, between, value, Seq::empty());
    assert(m + Seq::<char>::empty() =~= m);
}

/// A text of one line is that line's doing, on the first line; an empty text is the defaults.
pub proof fn one_line_is_a_configuration(s: Seq<char>)
    requires
        forall|i: int| 0 <= i < s.len() ==> #[trigger] s[i] != '\n',
    ensures
        config::config_of(s) == config::with_line(config::defaults(), s, 1),
{
    chars_laws::text_without_newline_is_one_line(s);
    reveal_with_fuel(config::with_lines, 2);
}

/// What is not set has its default.
pub proof fn default_configuration()
    ensures
        ({
            let c = config::defaults();
            &&& c.udp_listen.len() == 0 && c.tcp_listen.len() == 0
            &&& c.udp_workers == 0
            &&& c.udp_rcvbuf is None
            &&& c.connid_window == 120
            &&& c.redirect_url is None && c.rootdir is None && c.user is None
            &&& c.metrics_listen is None
            &&& !c.l7_enable && !c.nft_enable
            &&& c.l7 == l7::default_config()
            &&& c.nft_table == "inet filter"@
            &&& c.nft_set4 == "l7ban4"@
            &&& c.nft_set6 == "l7ban6"@
        }),
{
}

} // verus!

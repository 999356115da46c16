//! Configuration parser.
//!
//! A line-based directive format (`section.key value`, `#` comments), with `udp.*`, `l7.*`,
//! `nft.*`, and `metrics.*` sections. Unknown directives (accesslist, livesync, proxy) are parsed
//! and ignored. Pure text to [`Config`]; the runtime does the I/O.

use vstd::prelude::*;

use crate::addr;
use crate::addr::{IpAddr, IpView, SocketAddr, SocketView};
use crate::chars;
use crate::l7;
use crate::text;

verus! {

/// Default tracker port when a listen directive gives only an address.
pub const DEFAULT_PORT: u16 = 6969;

/// A parsed configuration.
#[derive(Debug, Clone, PartialEq, Eq)]
pub struct Config {
    /// UDP listen sockets.
    pub udp_listen: Vec<SocketAddr>,
    /// TCP (HTTP) listen sockets.
    pub tcp_listen: Vec<SocketAddr>,
    /// Number of blocking UDP worker sockets (`SO_REUSEPORT`).
    pub udp_workers: usize,
    /// `SO_RCVBUF` for the UDP sockets, if set.
    pub udp_rcvbuf: Option<usize>,
    /// Connection-id key window in seconds (BEP-15).
    pub connid_window: u32,
    /// `GET /` redirect target.
    pub redirect_url: Option<String>,
    /// chroot/chdir directory.
    pub rootdir: Option<String>,
    /// setuid target user.
    pub user: Option<String>,
    /// Prometheus metrics listen socket.
    pub metrics_listen: Option<SocketAddr>,
    /// Whether the L7 detector is enabled.
    pub l7_enable: bool,
    /// L7 detector tunables.
    pub l7: l7::Config,
    /// Whether nft enforcement is enabled.
    pub nft_enable: bool,
    /// nft table for the ban sets.
    pub nft_table: String,
    /// nft IPv4 ban set name.
    pub nft_set4: String,
    /// nft IPv6 ban set name.
    pub nft_set6: String,
}

/// A parse failure, with the 1-based line number.
#[derive(Debug, PartialEq, Eq)]
pub struct ParseError {
    /// 1-based line number.
    pub line: usize,
    /// Human-readable reason.
    pub message: String,
}

/// What a configuration says.
#[verifier::ext_equal]
pub struct ConfigView {
    pub udp_listen: Seq<SocketView>,
    pub tcp_listen: Seq<SocketView>,
    pub udp_workers: usize,
    pub udp_rcvbuf: Option<usize>,
    pub connid_window: u32,
    pub redirect_url: Option<Seq<char>>,
    pub rootdir: Option<Seq<char>>,
    pub user: Option<Seq<char>>,
    pub metrics_listen: Option<SocketView>,
    pub l7_enable: bool,
    pub l7: l7::Config,
    pub nft_enable: bool,
    pub nft_table: Seq<char>,
    pub nft_set4: Seq<char>,
    pub nft_set6: Seq<char>,
}

/// What a parse failure says.
#[verifier::ext_equal]
pub struct ErrorView {
    pub line: nat,
    pub message: Seq<char>,
}

/// Addresses as what they say.
pub open spec fn sockets_view(v: Seq<SocketAddr>) -> Seq<SocketView> {
    v.map_values(|a: SocketAddr| a@)
}

/// An optional string as its characters.
pub open spec fn string_view(s: Option<String>) -> Option<Seq<char>> {
    match s {
        Some(s) => Some(s@),
        None => None,
    }
}

impl View for Config {
    type V = ConfigView;

    open spec fn view(&self) -> ConfigView {
        ConfigView {
            udp_listen: sockets_view(self.udp_listen@),
            tcp_listen: sockets_view(self.tcp_listen@),
            udp_workers: self.udp_workers,
            udp_rcvbuf: self.udp_rcvbuf,
            connid_window: self.connid_window,
            redirect_url: string_view(self.redirect_url),
            rootdir: string_view(self.rootdir),
            user: string_view(self.user),
            metrics_listen: match self.metrics_listen {
                Some(a) => Some(a@),
                None => None,
            },
            l7_enable: self.l7_enable,
            l7: self.l7,
            nft_enable: self.nft_enable,
            nft_table: self.nft_table@,
            nft_set4: self.nft_set4@,
            nft_set6: self.nft_set6@,
        }
    }
}

impl View for ParseError {
    type V = ErrorView;

    open spec fn view(&self) -> ErrorView {
        ErrorView { line: self.line as nat, message: self.message@ }
    }
}

/// The configuration of an empty file.
pub open spec fn defaults() -> ConfigView {
    ConfigView {
        udp_listen: Seq::empty(),
        tcp_listen: Seq::empty(),
        udp_workers: 0,
        udp_rcvbuf: None,
        connid_window: 120,
        redirect_url: None,
        rootdir: None,
        user: None,
        metrics_listen: None,
        l7_enable: false,
        l7: l7::default_config(),
        nft_enable: false,
        nft_table: "inet filter"@,
        nft_set4: "l7ban4"@,
        nft_set6: "l7ban6"@,
    }
}

impl Default for Config {
    fn default() -> (r: Self)
        ensures
            r@ == defaults(),
    {
        let r = Config {
            udp_listen: Vec::new(),
            tcp_listen: Vec::new(),
            udp_workers: 0,
            udp_rcvbuf: None,
            connid_window: 120,
            redirect_url: None,
            rootdir: None,
            user: None,
            metrics_listen: None,
            l7_enable: false,
            l7: l7::Config::default(),
            nft_enable: false,
            nft_table: "inet filter".to_owned(),
            nft_set4: "l7ban4".to_owned(),
            nft_set6: "l7ban6".to_owned(),
        };
        assert(r@ =~= defaults());
        r
    }
}

impl Config {
    /// How many worker sockets to open per UDP address: as configured, but at least one.
    #[must_use]
    pub fn workers(&self) -> (r: usize)
        ensures
            r == (if self.udp_workers == 0 {
                1
            } else {
                self.udp_workers
            }),
    {
        if self.udp_workers == 0 {
            1
        } else {
            self.udp_workers
        }
    }
}

/// A text as the standard library quotes it for debugging.
pub uninterp spec fn debug_quoted(s: Seq<char>) -> Seq<char>;

/// Formats a text with the standard `Debug` of `str`, which quotes it and escapes what needs
/// escaping. The quoted text is a function of the text alone; nothing more is claimed of it.
#[verifier::external_body]
fn quoted(s: &str) -> (r: String)
    ensures
        r@ == debug_quoted(s@),
{
    format!("{s:?}")
}

/// The failure of a value: what was wrong with it, and the value quoted.
pub open spec fn bad_value(what: Seq<char>, val: Seq<char>, line: nat) -> ErrorView {
    ErrorView { line, message: what + debug_quoted(val) }
}

/// A failure on a line: what was wrong, and the value as it is shown.
pub fn failure(what: &str, shown: &str, line: usize) -> (r: ParseError)
    ensures
        r@ == (ErrorView { line: line as nat, message: what@ + shown@ }),
{
    ParseError { line, message: what.to_owned().concat(shown) }
}

/// Report a value.
fn reject(what: &str, val: &[char], line: usize) -> (r: ParseError)
    ensures
        r@ == bad_value(what@, val@, line as nat),
{
    let shown = quoted(chars::string_of(val).as_str());
    failure(what, shown.as_str(), line)
}

/// The number that a value is.
pub open spec fn number_value(val: Seq<char>, max: nat, line: nat) -> Result<nat, ErrorView> {
    match text::number(chars::ascii(val), max) {
        Some(n) => Ok(n),
        None => Err(bad_value("invalid value: "@, val, line)),
    }
}

/// The socket address that a value is.
pub open spec fn socket_value(val: Seq<char>, line: nat) -> Result<SocketView, ErrorView> {
    match addr::socket_of(chars::ascii(val)) {
        Some(a) => Ok(a),
        None => Err(bad_value("invalid value: "@, val, line)),
    }
}

/// The truth value that a value is.
pub open spec fn bool_value(val: Seq<char>, line: nat) -> Result<bool, ErrorView> {
    if val == "1"@ || val == "true"@ || val == "yes"@ {
        Ok(true)
    } else if val == "0"@ || val == "false"@ || val == "no"@ {
        Ok(false)
    } else {
        Err(bad_value("expected a boolean, got "@, val, line))
    }
}

/// An address with the default port.
pub open spec fn with_default_port(ip: IpView) -> SocketView {
    match ip {
        IpView::V4(o) => SocketView::V4 { ip: o, port: DEFAULT_PORT },
        IpView::V6(o) => SocketView::V6 { ip: o, port: DEFAULT_PORT, scope_id: 0 },
    }
}

/// The listen address that a value is: `ip:port`, `[v6]:port`, or a bare address.
pub open spec fn listen_value(val: Seq<char>, line: nat) -> Result<SocketView, ErrorView> {
    match addr::socket_of(chars::ascii(val)) {
        Some(a) => Ok(a),
        None => match addr::ip_of(chars::ascii(val)) {
            Some(ip) => Ok(with_default_port(ip)),
            None => Err(bad_value("invalid listen address: "@, val, line)),
        },
    }
}

/// Parse a number of at most `max`.
fn field(val: &[char], max: u64, line: usize) -> (r: Result<u64, ParseError>)
    ensures
        match r {
            Ok(n) => n <= max && number_value(val@, max as nat, line as nat) == Ok::<
                nat,
                ErrorView,
            >(n as nat),
            Err(e) => number_value(val@, max as nat, line as nat) == Err::<nat, ErrorView>(e@),
        },
{
    let b = chars::ascii_of(val);
    match text::parse_number(b.as_slice(), max) {
        Some(n) => Ok(n),
        None => Err(reject("invalid value: ", val, line)),
    }
}

/// Parse a socket address.
fn field_addr(val: &[char], line: usize) -> (r: Result<SocketAddr, ParseError>)
    ensures
        match r {
            Ok(a) => socket_value(val@, line as nat) == Ok::<SocketView, ErrorView>(a@),
            Err(e) => socket_value(val@, line as nat) == Err::<SocketView, ErrorView>(e@),
        },
{
    let b = chars::ascii_of(val);
    match addr::parse_socket(b.as_slice()) {
        Some(a) => Ok(a),
        None => Err(reject("invalid value: ", val, line)),
    }
}

fn boolean(val: &[char], line: usize) -> (r: Result<bool, ParseError>)
    ensures
        match r {
            Ok(b) => bool_value(val@, line as nat) == Ok::<bool, ErrorView>(b),
            Err(e) => bool_value(val@, line as nat) == Err::<bool, ErrorView>(e@),
        },
{
    if chars::is(val, "1") || chars::is(val, "true") || chars::is(val, "yes") {
        Ok(true)
    } else if chars::is(val, "0") || chars::is(val, "false") || chars::is(val, "no") {
        Ok(false)
    } else {
        Err(reject("expected a boolean, got ", val, line))
    }
}

/// Parse a listen address: `ip:port`, `[v6]:port`, or a bare address (which takes
/// [`DEFAULT_PORT`]).
fn listen_addr(val: &[char], line: usize) -> (r: Result<SocketAddr, ParseError>)
    ensures
        match r {
            Ok(a) => listen_value(val@, line as nat) == Ok::<SocketView, ErrorView>(a@),
            Err(e) => listen_value(val@, line as nat) == Err::<SocketView, ErrorView>(e@),
        },
{
    let b = chars::ascii_of(val);
    match addr::parse_socket(b.as_slice()) {
        Some(a) => Ok(a),
        None => match addr::parse_ip(b.as_slice()) {
            Some(IpAddr::V4(ip)) => Ok(SocketAddr::V4 { ip, port: DEFAULT_PORT }),
            Some(IpAddr::V6(ip)) => Ok(SocketAddr::V6 { ip, port: DEFAULT_PORT, scope_id: 0 }),
            None => Err(reject("invalid listen address: ", val, line)),
        },
    }
}

/// The directives.
pub enum Directive {
    ListenUdp,
    ListenTcp,
    ListenBoth,
    UdpWorkers,
    UdpRcvbuf,
    ConnidWindow,
    RedirectUrl,
    Rootdir,
    User,
    MetricsListen,
    L7Enable,
    L7ReannounceMinInterval,
    L7ScoreBanThreshold,
    L7BanDuration,
    L7MaxEntries,
    NftEnable,
    NftTable,
    NftSet4,
    NftSet6,
    /// Any other: parsed, and ignored.
    Other,
}

/// The directive that a key names.
pub open spec fn directive_of(key: Seq<char>) -> Directive {
    if key == "listen.udp"@ {
        Directive::ListenUdp
    } else if key == "listen.tcp"@ {
        Directive::ListenTcp
    } else if key == "listen.tcp_udp"@ {
        Directive::ListenBoth
    } else if key == "listen.udp.workers"@ {
        Directive::UdpWorkers
    } else if key == "listen.udp.rcvbuf"@ {
        Directive::UdpRcvbuf
    } else if key == "udp.connid_window"@ {
        Directive::ConnidWindow
    } else if key == "tracker.redirect_url"@ {
        Directive::RedirectUrl
    } else if key == "tracker.rootdir"@ {
        Directive::Rootdir
    } else if key == "tracker.user"@ {
        Directive::User
    } else if key == "metrics.listen"@ {
        Directive::MetricsListen
    } else if key == "l7.enable"@ {
        Directive::L7Enable
    } else if key == "l7.reannounce_min_interval"@ {
        Directive::L7ReannounceMinInterval
    } else if key == "l7.score_ban_threshold"@ {
        Directive::L7ScoreBanThreshold
    } else if key == "l7.ban_duration"@ {
        Directive::L7BanDuration
    } else if key == "l7.max_entries"@ {
        Directive::L7MaxEntries
    } else if key == "nft.enable"@ {
        Directive::NftEnable
    } else if key == "nft.table"@ {
        Directive::NftTable
    } else if key == "nft.set4"@ {
        Directive::NftSet4
    } else if key == "nft.set6"@ {
        Directive::NftSet6
    } else {
        Directive::Other
    }
}

/// A directive with the value that it sets.
pub enum Setting {
    ListenUdp(SocketView),
    ListenTcp(SocketView),
    ListenBoth(SocketView),
    UdpWorkers(usize),
    UdpRcvbuf(usize),
    ConnidWindow(u32),
    RedirectUrl(Seq<char>),
    Rootdir(Seq<char>),
    User(Seq<char>),
    MetricsListen(SocketView),
    L7Enable(bool),
    L7ReannounceMinInterval(u32),
    L7ScoreBanThreshold(u32),
    L7BanDuration(u32),
    L7MaxEntries(usize),
    NftEnable(bool),
    NftTable(Seq<char>),
    NftSet4(Seq<char>),
    NftSet6(Seq<char>),
    /// Nothing is set.
    Unset,
}

/// What a directive with a value sets.
pub open spec fn setting_of(d: Directive, val: Seq<char>, line: nat) -> Result<Setting, ErrorView> {
    match d {
        Directive::ListenUdp => match listen_value(val, line) {
            Ok(v) => Ok(Setting::ListenUdp(v)),
            Err(e) => Err(e),
        },
        Directive::ListenTcp => match listen_value(val, line) {
            Ok(v) => Ok(Setting::ListenTcp(v)),
            Err(e) => Err(e),
        },
        Directive::ListenBoth => match listen_value(val, line) {
            Ok(v) => Ok(Setting::ListenBoth(v)),
            Err(e) => Err(e),
        },
        Directive::UdpWorkers => match number_value(val, usize::MAX as nat, line) {
            Ok(v) => Ok(Setting::UdpWorkers(v as usize)),
            Err(e) => Err(e),
        },
        Directive::UdpRcvbuf => match number_value(val, usize::MAX as nat, line) {
            Ok(v) => Ok(Setting::UdpRcvbuf(v as usize)),
            Err(e) => Err(e),
        },
        Directive::ConnidWindow => match number_value(val, u32::MAX as nat, line) {
            Ok(v) => Ok(Setting::ConnidWindow(v as u32)),
            Err(e) => Err(e),
        },
        Directive::RedirectUrl => Ok(Setting::RedirectUrl(val)),
        Directive::Rootdir => Ok(Setting::Rootdir(val)),
        Directive::User => Ok(Setting::User(val)),
        Directive::MetricsListen => match socket_value(val, line) {
            Ok(v) => Ok(Setting::MetricsListen(v)),
            Err(e) => Err(e),
        },
        Directive::L7Enable => match bool_value(val, line) {
            Ok(v) => Ok(Setting::L7Enable(v)),
            Err(e) => Err(e),
        },
        Directive::L7ReannounceMinInterval => match number_value(val, u32::MAX as nat, line) {
            Ok(v) => Ok(Setting::L7ReannounceMinInterval(v as u32)),
            Err(e) => Err(e),
        },
        Directive::L7ScoreBanThreshold => match number_value(val, u32::MAX as nat, line) {
            Ok(v) => Ok(Setting::L7ScoreBanThreshold(v as u32)),
            Err(e) => Err(e),
        },
        Directive::L7BanDuration => match number_value(val, u32::MAX as nat, line) {
            Ok(v) => Ok(Setting::L7BanDuration(v as u32)),
            Err(e) => Err(e),
        },
        Directive::L7MaxEntries => match number_value(val, usize::MAX as nat, line) {
            Ok(v) => Ok(Setting::L7MaxEntries(v as usize)),
            Err(e) => Err(e),
        },
        Directive::NftEnable => match bool_value(val, line) {
            Ok(v) => Ok(Setting::NftEnable(v)),
            Err(e) => Err(e),
        },
        Directive::NftTable => Ok(Setting::NftTable(val)),
        Directive::NftSet4 => Ok(Setting::NftSet4(val)),
        Directive::NftSet6 => Ok(Setting::NftSet6(val)),
        Directive::Other => Ok(Setting::Unset),
    }
}

/// The configuration with a setting.
pub open spec fn with_setting(c: ConfigView, s: Setting) -> ConfigView {
    match s {
        Setting::ListenUdp(v) => ConfigView { udp_listen: c.udp_listen.push(v), ..c },
        Setting::ListenTcp(v) => ConfigView { tcp_listen: c.tcp_listen.push(v), ..c },
        Setting::ListenBoth(v) => ConfigView {
            udp_listen: c.udp_listen.push(v),
            tcp_listen: c.tcp_listen.push(v),
            ..c
        },
        Setting::UdpWorkers(v) => ConfigView { udp_workers: v, ..c },
        Setting::UdpRcvbuf(v) => ConfigView { udp_rcvbuf: Some(v), ..c },
        Setting::ConnidWindow(v) => ConfigView { connid_window: v, ..c },
        Setting::RedirectUrl(v) => ConfigView { redirect_url: Some(v), ..c },
        Setting::Rootdir(v) => ConfigView { rootdir: Some(v), ..c },
        Setting::User(v) => ConfigView { user: Some(v), ..c },
        Setting::MetricsListen(v) => ConfigView { metrics_listen: Some(v), ..c },
        Setting::L7Enable(v) => ConfigView { l7_enable: v, ..c },
        Setting::L7ReannounceMinInterval(v) => ConfigView {
            l7: l7::Config { reannounce_min_interval: v, ..c.l7 },
            ..c
        },
        Setting::L7ScoreBanThreshold(v) => ConfigView {
            l7: l7::Config { score_ban_threshold: v, ..c.l7 },
            ..c
        },
        Setting::L7BanDuration(v) => ConfigView {
            l7: l7::Config { ban_duration: v, ..c.l7 },
            ..c
        },
        Setting::L7MaxEntries(v) => ConfigView {
            l7: l7::Config { max_entries: v, ..c.l7 },
            ..c
        },
        Setting::NftEnable(v) => ConfigView { nft_enable: v, ..c },
        Setting::NftTable(v) => ConfigView { nft_table: v, ..c },
        Setting::NftSet4(v) => ConfigView { nft_set4: v, ..c },
        Setting::NftSet6(v) => ConfigView { nft_set6: v, ..c },
        Setting::Unset => c,
    }
}

/// The configuration after one directive with a value.
pub open spec fn with_value(c: ConfigView, d: Directive, val: Seq<char>, line: nat) -> Result<
    ConfigView,
    ErrorView,
> {
    match setting_of(d, val, line) {
        Ok(s) => Ok(with_setting(c, s)),
        Err(e) => Err(e),
    }
}

/// The configuration after one directive.
#[verifier::opaque]
pub open spec fn with_directive(c: ConfigView, key: Seq<char>, val: Seq<char>, line: nat) -> Result<
    ConfigView,
    ErrorView,
> {
    with_value(c, directive_of(key), val, line)
}

/// The configuration after one line: blank lines and comments are passed over. A carriage return
/// before the newline is whitespace at the end of the line, which trimming drops.
pub open spec fn with_line(c: ConfigView, raw: Seq<char>, line: nat) -> Result<
    ConfigView,
    ErrorView,
> {
    let t = chars::trimmed(raw);
    if t.len() == 0 || t[0] == '#' {
        Ok(c)
    } else {
        let (key, val) = chars::directive(t);
        with_directive(c, key, val, line)
    }
}

/// The configuration after the first `n` lines: the first malformed value ends it.
pub open spec fn with_lines(lines: Seq<Seq<char>>, n: nat) -> Result<ConfigView, ErrorView>
    decreases n,
{
    if n == 0 {
        Ok(defaults())
    } else {
        match with_lines(lines, (n - 1) as nat) {
            Ok(c) => with_line(c, lines[n - 1], n),
            Err(e) => Err(e),
        }
    }
}

/// The configuration that a text is.
pub open spec fn config_of(s: Seq<char>) -> Result<ConfigView, ErrorView> {
    with_lines(chars::lines(s), chars::lines(s).len())
}

/// A malformed value ends the parse, whatever follows it.
proof fn error_stays(lines: Seq<Seq<char>>, n: nat, m: nat)
    requires
        n <= m,
        with_lines(lines, n) is Err,
    ensures
        with_lines(lines, m) == with_lines(lines, n),
    decreases m,
{
    if n < m {
        error_stays(lines, n, (m - 1) as nat);
    }
}

/// A malformed value is reported on its own line.
proof fn value_failure_names_its_line(val: Seq<char>, max: nat, line: nat)
    ensures
        listen_value(val, line) is Err ==> listen_value(val, line)->Err_0.line == line,
        socket_value(val, line) is Err ==> socket_value(val, line)->Err_0.line == line,
        bool_value(val, line) is Err ==> bool_value(val, line)->Err_0.line == line,
        number_value(val, max, line) is Err ==> number_value(val, max, line)->Err_0.line == line,
{
}

/// A directive that fails does so on its own line.
proof fn failure_names_its_line(c: ConfigView, raw: Seq<char>, line: nat)
    ensures
        with_line(c, raw, line) is Err ==> with_line(c, raw, line)->Err_0.line == line,
{
    reveal(with_directive);
    let (key, val) = chars::directive(chars::trimmed(raw));
    value_failure_names_its_line(val, usize::MAX as nat, line);
    value_failure_names_its_line(val, u32::MAX as nat, line);
}

/// A parse fails on the first line with a malformed value: everything before that line is fine,
/// and the failure is that line's.
pub proof fn error_names_the_first_bad_line(lines: Seq<Seq<char>>, n: nat)
    requires
        with_lines(lines, n) is Err,
    ensures
        ({
            let e = with_lines(lines, n)->Err_0;
            &&& 1 <= e.line <= n
            &&& with_lines(lines, (e.line - 1) as nat) is Ok
            &&& with_line(
                with_lines(lines, (e.line - 1) as nat)->Ok_0,
                lines[e.line - 1],
                e.line,
            ) == Err::<ConfigView, ErrorView>(e)
        }),
    decreases n,
{
    if n > 0 {
        if with_lines(lines, (n - 1) as nat) is Err {
            error_names_the_first_bad_line(lines, (n - 1) as nat);
        } else {
            failure_names_its_line(with_lines(lines, (n - 1) as nat)->Ok_0, lines[n - 1], n);
        }
    }
}

/// The directives that say something.
pub open spec fn known_directive(key: Seq<char>) -> bool {
    ||| key == "listen.udp"@
    ||| key == "listen.tcp"@
    ||| key == "listen.tcp_udp"@
    ||| key == "listen.udp.workers"@
    ||| key == "listen.udp.rcvbuf"@
    ||| key == "udp.connid_window"@
    ||| key == "tracker.redirect_url"@
    ||| key == "tracker.rootdir"@
    ||| key == "tracker.user"@
    ||| key == "metrics.listen"@
    ||| key == "l7.enable"@
    ||| key == "l7.reannounce_min_interval"@
    ||| key == "l7.score_ban_threshold"@
    ||| key == "l7.ban_duration"@
    ||| key == "l7.max_entries"@
    ||| key == "nft.enable"@
    ||| key == "nft.table"@
    ||| key == "nft.set4"@
    ||| key == "nft.set6"@
}

/// Unknown directives are ignored, whatever their value.
pub proof fn unknown_directives_are_ignored(
    c: ConfigView,
    key: Seq<char>,
    val: Seq<char>,
    line: nat,
)
    requires
        !known_directive(key),
    ensures
        with_directive(c, key, val, line) == Ok::<ConfigView, ErrorView>(c),
{
    reveal(with_directive);
}

/// Blank lines and comments say nothing.
pub proof fn comments_say_nothing(c: ConfigView, raw: Seq<char>, line: nat)
    requires
        chars::trimmed(raw).len() == 0 || chars::trimmed(raw)[0] == '#',
    ensures
        with_line(c, raw, line) == Ok::<ConfigView, ErrorView>(c),
{
}

/// Each directive goes by one key.
pub proof fn keys_name_their_directives(key: Seq<char>)
    ensures
        key == "listen.udp"@ <==> directive_of(key) is ListenUdp,
        key == "listen.tcp"@ <==> directive_of(key) is ListenTcp,
        key == "listen.tcp_udp"@ <==> directive_of(key) is ListenBoth,
        key == "listen.udp.workers"@ <==> directive_of(key) is UdpWorkers,
        key == "listen.udp.rcvbuf"@ <==> directive_of(key) is UdpRcvbuf,
        key == "udp.connid_window"@ <==> directive_of(key) is ConnidWindow,
        key == "tracker.redirect_url"@ <==> directive_of(key) is RedirectUrl,
        key == "tracker.rootdir"@ <==> directive_of(key) is Rootdir,
        key == "tracker.user"@ <==> directive_of(key) is User,
        key == "metrics.listen"@ <==> directive_of(key) is MetricsListen,
        key == "l7.enable"@ <==> directive_of(key) is L7Enable,
        key == "l7.reannounce_min_interval"@ <==> directive_of(key) is L7ReannounceMinInterval,
        key == "l7.score_ban_threshold"@ <==> directive_of(key) is L7ScoreBanThreshold,
        key == "l7.ban_duration"@ <==> directive_of(key) is L7BanDuration,
        key == "l7.max_entries"@ <==> directive_of(key) is L7MaxEntries,
        key == "nft.enable"@ <==> directive_of(key) is NftEnable,
        key == "nft.table"@ <==> directive_of(key) is NftTable,
        key == "nft.set4"@ <==> directive_of(key) is NftSet4,
        key == "nft.set6"@ <==> directive_of(key) is NftSet6,
{
    assert({
        &&& "listen.udp"@.len() == 10
        &&& "listen.udp"@[0] == 'l'
        &&& "listen.udp"@[7] == 'u'
    }) by {
        reveal_strlit("listen.udp");
    }
    assert({
        &&& "listen.tcp"@.len() == 10
        &&& "listen.tcp"@[0] == 'l'
        &&& "listen.tcp"@[7] == 't'
    }) by {
        reveal_strlit("listen.tcp");
    }
    assert({
        &&& "listen.tcp_udp"@.len() == 14
        &&& "listen.tcp_udp"@[0] == 'l'
        &&& "listen.tcp_udp"@[7] == 't'
    }) by {
        reveal_strlit("listen.tcp_udp");
    }
    assert({
        &&& "listen.udp.workers"@.len() == 18
        &&& "listen.udp.workers"@[0] == 'l'
        &&& "listen.udp.workers"@[7] == 'u'
    }) by {
        reveal_strlit("listen.udp.workers");
    }
    assert({
        &&& "listen.udp.rcvbuf"@.len() == 17
        &&& "listen.udp.rcvbuf"@[0] == 'l'
        &&& "listen.udp.rcvbuf"@[7] == 'u'
    }) by {
        reveal_strlit("listen.udp.rcvbuf");
    }
    assert({
        &&& "udp.connid_window"@.len() == 17
        &&& "udp.connid_window"@[0] == 'u'
        &&& "udp.connid_window"@[7] == 'n'
    }) by {
        reveal_strlit("udp.connid_window");
    }
    assert({
        &&& "tracker.redirect_url"@.len() == 20
        &&& "tracker.redirect_url"@[0] == 't'
        &&& "tracker.redirect_url"@[7] == '.'
    }) by {
        reveal_strlit("tracker.redirect_url");
    }
    assert({
        &&& "tracker.rootdir"@.len() == 15
        &&& "tracker.rootdir"@[0] == 't'
        &&& "tracker.rootdir"@[7] == '.'
    }) by {
        reveal_strlit("tracker.rootdir");
    }
    assert({
        &&& "tracker.user"@.len() == 12
        &&& "tracker.user"@[0] == 't'
        &&& "tracker.user"@[7] == '.'
    }) by {
        reveal_strlit("tracker.user");
    }
    assert({
        &&& "metrics.listen"@.len() == 14
        &&& "metrics.listen"@[0] == 'm'
        &&& "metrics.listen"@[7] == '.'
    }) by {
        reveal_strlit("metrics.listen");
    }
    assert({
        &&& "l7.enable"@.len() == 9
        &&& "l7.enable"@[0] == 'l'
        &&& "l7.enable"@[7] == 'l'
    }) by {
        reveal_strlit("l7.enable");
    }
    assert({
        &&& "l7.reannounce_min_interval"@.len() == 26
        &&& "l7.reannounce_min_interval"@[0] == 'l'
        &&& "l7.reannounce_min_interval"@[7] == 'n'
    }) by {
        reveal_strlit("l7.reannounce_min_interval");
    }
    assert({
        &&& "l7.score_ban_threshold"@.len() == 22
        &&& "l7.score_ban_threshold"@[0] == 'l'
        &&& "l7.score_ban_threshold"@[7] == 'e'
    }) by {
        reveal_strlit("l7.score_ban_threshold");
    }
    assert({
        &&& "l7.ban_duration"@.len() == 15
        &&& "l7.ban_duration"@[0] == 'l'
        &&& "l7.ban_duration"@[7] == 'd'
    }) by {
        reveal_strlit("l7.ban_duration");
    }
    assert({
        &&& "l7.max_entries"@.len() == 14
        &&& "l7.max_entries"@[0] == 'l'
        &&& "l7.max_entries"@[7] == 'e'
    }) by {
        reveal_strlit("l7.max_entries");
    }
    assert({
        &&& "nft.enable"@.len() == 10
        &&& "nft.enable"@[0] == 'n'
        &&& "nft.enable"@[7] == 'b'
    }) by {
        reveal_strlit("nft.enable");
    }
    assert({
        &&& "nft.table"@.len() == 9
        &&& "nft.table"@[0] == 'n'
        &&& "nft.table"@[7] == 'l'
    }) by {
        reveal_strlit("nft.table");
    }
    assert({
        &&& "nft.set4"@.len() == 8
        &&& "nft.set4"@[0] == 'n'
        &&& "nft.set4"@[7] == '4'
    }) by {
        reveal_strlit("nft.set4");
    }
    assert({
        &&& "nft.set6"@.len() == 8
        &&& "nft.set6"@[0] == 'n'
        &&& "nft.set6"@[7] == '6'
    }) by {
        reveal_strlit("nft.set6");
    }
}

/// The directive that a line is.
pub open spec fn line_directive(raw: Seq<char>) -> Directive {
    let t = chars::trimmed(raw);
    if t.len() == 0 || t[0] == '#' {
        Directive::Other
    } else {
        directive_of(chars::directive(t).0)
    }
}

/// The directives that the lines are.
pub open spec fn directives(lines: Seq<Seq<char>>) -> Set<Directive> {
    Set::new(
        |d: Directive|
            exists|i: int| 0 <= i < lines.len() && line_directive(#[trigger] lines[i]) == d,
    )
}

/// The later of two values where it was set, else the earlier.
pub open spec fn last_set<T>(set: Set<Directive>, d: Directive, earlier: T, later: T) -> T {
    if set.contains(d) {
        later
    } else {
        earlier
    }
}

/// A configuration followed by another, of which it is given what it sets: listeners add up in
/// order, and of everything else what the later one sets wins.
pub open spec fn followed_by(a: ConfigView, b: ConfigView, set: Set<Directive>) -> ConfigView {
    ConfigView {
        udp_listen: a.udp_listen + b.udp_listen,
        tcp_listen: a.tcp_listen + b.tcp_listen,
        udp_workers: last_set(set, Directive::UdpWorkers, a.udp_workers, b.udp_workers),
        udp_rcvbuf: last_set(set, Directive::UdpRcvbuf, a.udp_rcvbuf, b.udp_rcvbuf),
        connid_window: last_set(set, Directive::ConnidWindow, a.connid_window, b.connid_window),
        redirect_url: last_set(set, Directive::RedirectUrl, a.redirect_url, b.redirect_url),
        rootdir: last_set(set, Directive::Rootdir, a.rootdir, b.rootdir),
        user: last_set(set, Directive::User, a.user, b.user),
        metrics_listen: last_set(set, Directive::MetricsListen, a.metrics_listen, b.metrics_listen),
        l7_enable: last_set(set, Directive::L7Enable, a.l7_enable, b.l7_enable),
        nft_enable: last_set(set, Directive::NftEnable, a.nft_enable, b.nft_enable),
        nft_table: last_set(set, Directive::NftTable, a.nft_table, b.nft_table),
        nft_set4: last_set(set, Directive::NftSet4, a.nft_set4, b.nft_set4),
        nft_set6: last_set(set, Directive::NftSet6, a.nft_set6, b.nft_set6),
        l7: l7::Config {
            reannounce_min_interval: last_set(
                set,
                Directive::L7ReannounceMinInterval,
                a.l7.reannounce_min_interval,
                b.l7.reannounce_min_interval,
            ),
            score_ban_threshold: last_set(
                set,
                Directive::L7ScoreBanThreshold,
                a.l7.score_ban_threshold,
                b.l7.score_ban_threshold,
            ),
            ban_duration: last_set(
                set,
                Directive::L7BanDuration,
                a.l7.ban_duration,
                b.l7.ban_duration,
            ),
            max_entries: last_set(
                set,
                Directive::L7MaxEntries,
                a.l7.max_entries,
                b.l7.max_entries,
            ),
            ..a.l7
        },
    }
}

/// One line more.
proof fn one_more_line(lines: Seq<Seq<char>>, raw: Seq<char>)
    ensures
        directives(lines.push(raw)) == directives(lines).insert(line_directive(raw)),
{
    let more = lines.push(raw);
    assert forall|d: Directive| #[trigger] directives(more).contains(d) == directives(
        lines,
    ).insert(line_directive(raw)).contains(d) by {
        assert(more[lines.len() as int] == raw);
        if directives(lines).contains(d) {
            let i = choose|i: int|
                0 <= i < lines.len() && line_directive(#[trigger] lines[i]) == d;
            assert(more[i] == lines[i]);
        }
        if directives(more).contains(d) {
            let i = choose|i: int|
                0 <= i < more.len() && line_directive(#[trigger] more[i]) == d;
            if i < lines.len() {
                assert(lines[i] == more[i]);
            }
        }
    }
    assert(directives(more) =~= directives(lines).insert(line_directive(raw)));
}

/// A value means the same wherever its line stands, but for the line that a failure names.
proof fn values_ignore_the_line(val: Seq<char>, max: nat, line: nat, other: nat)
    ensures
        moved(listen_value(val, line), other) == listen_value(val, other),
        moved(socket_value(val, line), other) == socket_value(val, other),
        moved(bool_value(val, line), other) == bool_value(val, other),
        moved(number_value(val, max, line), other) == number_value(val, max, other),
{
}

/// An outcome with the line that a failure names moved.
pub open spec fn moved<T>(r: Result<T, ErrorView>, line: nat) -> Result<T, ErrorView> {
    match r {
        Ok(v) => Ok(v),
        Err(e) => Err(ErrorView { line, ..e }),
    }
}

/// The directive that sets it.
spec fn set_by(s: Setting) -> Directive {
    match s {
        Setting::ListenUdp(_) => Directive::ListenUdp,
        Setting::ListenTcp(_) => Directive::ListenTcp,
        Setting::ListenBoth(_) => Directive::ListenBoth,
        Setting::UdpWorkers(_) => Directive::UdpWorkers,
        Setting::UdpRcvbuf(_) => Directive::UdpRcvbuf,
        Setting::ConnidWindow(_) => Directive::ConnidWindow,
        Setting::RedirectUrl(_) => Directive::RedirectUrl,
        Setting::Rootdir(_) => Directive::Rootdir,
        Setting::User(_) => Directive::User,
        Setting::MetricsListen(_) => Directive::MetricsListen,
        Setting::L7Enable(_) => Directive::L7Enable,
        Setting::L7ReannounceMinInterval(_) => Directive::L7ReannounceMinInterval,
        Setting::L7ScoreBanThreshold(_) => Directive::L7ScoreBanThreshold,
        Setting::L7BanDuration(_) => Directive::L7BanDuration,
        Setting::L7MaxEntries(_) => Directive::L7MaxEntries,
        Setting::NftEnable(_) => Directive::NftEnable,
        Setting::NftTable(_) => Directive::NftTable,
        Setting::NftSet4(_) => Directive::NftSet4,
        Setting::NftSet6(_) => Directive::NftSet6,
        Setting::Unset => Directive::Other,
    }
}

/// What a directive sets is its own.
proof fn setting_is_its_own(d: Directive, val: Seq<char>, line: nat)
    ensures
        setting_of(d, val, line) matches Ok(s) ==> set_by(s) == d,
{
}

/// What a directive sets is the same wherever its line stands.
proof fn setting_ignores_the_line(d: Directive, val: Seq<char>, line: nat, other: nat)
    ensures
        moved(setting_of(d, val, line), other) == setting_of(d, val, other),
{
    match d {
        Directive::ListenUdp | Directive::ListenTcp | Directive::ListenBoth => {
            values_ignore_the_line(val, 0, line, other);
        },
        Directive::MetricsListen | Directive::L7Enable | Directive::NftEnable => {
            values_ignore_the_line(val, 0, line, other);
        },
        Directive::UdpWorkers | Directive::UdpRcvbuf | Directive::L7MaxEntries => {
            values_ignore_the_line(val, usize::MAX as nat, line, other);
        },
        Directive::ConnidWindow | Directive::L7ReannounceMinInterval => {
            values_ignore_the_line(val, u32::MAX as nat, line, other);
        },
        Directive::L7ScoreBanThreshold | Directive::L7BanDuration => {
            values_ignore_the_line(val, u32::MAX as nat, line, other);
        },
        _ => {},
    }
}

/// A setting does the same to a configuration as to the same one after an earlier text.
proof fn setting_follows(a: ConfigView, b: ConfigView, set: Set<Directive>, s: Setting)
    ensures
        with_setting(followed_by(a, b, set), s) == followed_by(
            a,
            with_setting(b, s),
            set.insert(set_by(s)),
        ),
{
    assert(with_setting(followed_by(a, b, set), s) =~= followed_by(
        a,
        with_setting(b, s),
        set.insert(set_by(s)),
    ));
}

/// A line is its directive with its value.
proof fn line_is_its_directive(c: ConfigView, raw: Seq<char>, line: nat)
    ensures
        with_line(c, raw, line) == with_value(
            c,
            line_directive(raw),
            chars::directive(chars::trimmed(raw)).1,
            line,
        ),
{
    reveal(with_directive);
}

/// A line does the same to a configuration as to the same one after an earlier text.
proof fn line_follows(
    a: ConfigView,
    b: ConfigView,
    lines: Seq<Seq<char>>,
    raw: Seq<char>,
    line: nat,
    other: nat,
)
    ensures
        with_line(followed_by(a, b, directives(lines)), raw, other) == match with_line(
            b,
            raw,
            line,
        ) {
            Ok(c) => Ok::<ConfigView, ErrorView>(followed_by(a, c, directives(lines.push(raw)))),
            Err(e) => Err::<ConfigView, ErrorView>(ErrorView { line: other, ..e }),
        },
{
    let d = line_directive(raw);
    let val = chars::directive(chars::trimmed(raw)).1;
    one_more_line(lines, raw);
    line_is_its_directive(b, raw, line);
    line_is_its_directive(followed_by(a, b, directives(lines)), raw, other);
    setting_is_its_own(d, val, line);
    setting_ignores_the_line(d, val, line, other);
    if let Ok(s) = setting_of(d, val, line) {
        setting_follows(a, b, directives(lines), s);
    }
}

/// Lines that follow others do not change what those say.
proof fn first_lines_stand(lines: Seq<Seq<char>>, more: Seq<Seq<char>>, n: nat)
    requires
        n <= lines.len(),
    ensures
        with_lines(lines + more, n) == with_lines(lines, n),
    decreases n,
{
    if n > 0 {
        first_lines_stand(lines, more, (n - 1) as nat);
        assert((lines + more)[n - 1] == lines[n - 1]);
    }
}

/// What lines say after others: as `followed_by` has it, or their failure on its line.
proof fn lines_follow(lines: Seq<Seq<char>>, more: Seq<Seq<char>>, n: nat)
    requires
        n <= more.len(),
        with_lines(lines, lines.len()) is Ok,
    ensures
        with_lines(lines + more, lines.len() + n) == match with_lines(more, n) {
            Ok(c) => Ok::<ConfigView, ErrorView>(
                followed_by(
                    with_lines(lines, lines.len())->Ok_0,
                    c,
                    directives(more.take(n as int)),
                ),
            ),
            Err(e) => Err::<ConfigView, ErrorView>(
                ErrorView { line: lines.len() + e.line, ..e },
            ),
        },
    decreases n,
{
    let a = with_lines(lines, lines.len())->Ok_0;
    if n == 0 {
        first_lines_stand(lines, more, lines.len());
        assert(directives(more.take(0)) =~= Set::empty());
        assert(followed_by(a, defaults(), Set::empty()) =~= a);
    } else {
        let m = (n - 1) as nat;
        lines_follow(lines, more, m);
        assert((lines + more)[(lines.len() + m) as int] == more[m as int]);
        if let Ok(b) = with_lines(more, m) {
            line_follows(a, b, more.take(m as int), more[m as int], n, lines.len() + n);
            failure_names_its_line(b, more[m as int], n);
            assert(more.take(n as int) =~= more.take(m as int).push(more[m as int]));
        }
    }
}

/// Two texts joined by a newline: listeners add up in order, and of every other setting the last
/// line that sets it wins. A failure of the first is the failure of both; one of the second only
/// moves by the lines before it.
pub proof fn texts_combine(a: Seq<char>, b: Seq<char>)
    ensures
        config_of(a.push('\n') + b) == match (config_of(a), config_of(b)) {
            (Err(e), _) => Err::<ConfigView, ErrorView>(e),
            (Ok(ca), Ok(cb)) => Ok::<ConfigView, ErrorView>(
                followed_by(ca, cb, directives(chars::lines(b))),
            ),
            (Ok(_), Err(e)) => Err::<ConfigView, ErrorView>(
                ErrorView { line: chars::lines(a).len() + e.line, ..e },
            ),
        },
{
    let la = chars::lines(a);
    let lb = chars::lines(b);
    chars::lines_join(a, b);
    first_lines_stand(la, lb, la.len());
    if config_of(a) is Err {
        error_stays(la + lb, la.len(), (la + lb).len());
    } else {
        lines_follow(la, lb, lb.len());
        assert(lb.take(lb.len() as int) =~= lb);
    }
}

/// Take one directive.
fn apply(c: &mut Config, key: &[char], val: &[char], line: usize) -> (r: Result<(), ParseError>)
    ensures
        match r {
            Ok(()) => with_directive(old(c)@, key@, val@, line as nat) == Ok::<
                ConfigView,
                ErrorView,
            >(final(c)@),
            Err(e) => with_directive(old(c)@, key@, val@, line as nat) == Err::<
                ConfigView,
                ErrorView,
            >(e@),
        },
{
    reveal(with_directive);
    if chars::is(key, "listen.udp") {
        match listen_addr(val, line) {
            Ok(a) => {
                push_addr(&mut c.udp_listen, a);
                Ok(())
            },
            Err(e) => Err(e),
        }
    } else if chars::is(key, "listen.tcp") {
        match listen_addr(val, line) {
            Ok(a) => {
                push_addr(&mut c.tcp_listen, a);
                Ok(())
            },
            Err(e) => Err(e),
        }
    } else if chars::is(key, "listen.tcp_udp") {
        match listen_addr(val, line) {
            Ok(a) => {
                push_addr(&mut c.udp_listen, a);
                push_addr(&mut c.tcp_listen, a);
                Ok(())
            },
            Err(e) => Err(e),
        }
    } else if chars::is(key, "listen.udp.workers") {
        match field(val, usize::MAX as u64, line) {
            Ok(n) => {
                c.udp_workers = n as usize;
                Ok(())
            },
            Err(e) => Err(e),
        }
    } else if chars::is(key, "listen.udp.rcvbuf") {
        match field(val, usize::MAX as u64, line) {
            Ok(n) => {
                c.udp_rcvbuf = Some(n as usize);
                Ok(())
            },
            Err(e) => Err(e),
        }
    } else if chars::is(key, "udp.connid_window") {
        match field(val, u32::MAX as u64, line) {
            Ok(n) => {
                c.connid_window = n as u32;
                Ok(())
            },
            Err(e) => Err(e),
        }
    } else if chars::is(key, "tracker.redirect_url") {
        c.redirect_url = Some(chars::string_of(val));
        Ok(())
    } else if chars::is(key, "tracker.rootdir") {
        c.rootdir = Some(chars::string_of(val));
        Ok(())
    } else if chars::is(key, "tracker.user") {
        c.user = Some(chars::string_of(val));
        Ok(())
    } else if chars::is(key, "metrics.listen") {
        match field_addr(val, line) {
            Ok(a) => {
                c.metrics_listen = Some(a);
                Ok(())
            },
            Err(e) => Err(e),
        }
    } else if chars::is(key, "l7.enable") {
        match boolean(val, line) {
            Ok(b) => {
                c.l7_enable = b;
                Ok(())
            },
            Err(e) => Err(e),
        }
    } else if chars::is(key, "l7.reannounce_min_interval") {
        match field(val, u32::MAX as u64, line) {
            Ok(n) => {
                c.l7.reannounce_min_interval = n as u32;
                Ok(())
            },
            Err(e) => Err(e),
        }
    } else if chars::is(key, "l7.score_ban_threshold") {
        match field(val, u32::MAX as u64, line) {
            Ok(n) => {
                c.l7.score_ban_threshold = n as u32;
                Ok(())
            },
            Err(e) => Err(e),
        }
    } else if chars::is(key, "l7.ban_duration") {
        match field(val, u32::MAX as u64, line) {
            Ok(n) => {
                c.l7.ban_duration = n as u32;
                Ok(())
            },
            Err(e) => Err(e),
        }
    } else if chars::is(key, "l7.max_entries") {
        match field(val, usize::MAX as u64, line) {
            Ok(n) => {
                c.l7.max_entries = n as usize;
                Ok(())
            },
            Err(e) => Err(e),
        }
    } else if chars::is(key, "nft.enable") {
        match boolean(val, line) {
            Ok(b) => {
                c.nft_enable = b;
                Ok(())
            },
            Err(e) => Err(e),
        }
    } else if chars::is(key, "nft.table") {
        c.nft_table = chars::string_of(val);
        Ok(())
    } else if chars::is(key, "nft.set4") {
        c.nft_set4 = chars::string_of(val);
        Ok(())
    } else if chars::is(key, "nft.set6") {
        c.nft_set6 = chars::string_of(val);
        Ok(())
    } else {
        // Unknown directives (accesslist, livesync, proxy, ...) are ignored.
        Ok(())
    }
}

/// Parse a whole configuration file.
///
/// # Errors
/// Returns a [`ParseError`] on the first line with a malformed value.
pub fn parse(s: &str) -> (r: Result<Config, ParseError>)
    ensures
        match r {
            Ok(c) => config_of(s@) == Ok::<ConfigView, ErrorView>(c@),
            Err(e) => config_of(s@) == Err::<ConfigView, ErrorView>(e@),
        },
{
    let all = chars::chars_of(s);
    let lines = chars::split_lines(all.as_slice());
    let ghost ls = chars::lines(s@);
    let mut c = Config::default();
    let mut i: usize = 0;
    while i < lines.len()
        invariant
            i <= lines@.len(),
            ls == chars::lines(s@),
            chars::lines_view(lines@) == ls,
            with_lines(ls, i as nat) == Ok::<ConfigView, ErrorView>(c@),
        decreases lines@.len() - i,
    {
        let raw = &lines[i];
        assert(ls[i as int] == raw@);
        let line: usize = i + 1;
        let trimmed = chars::trim(raw.as_slice());
        if trimmed.len() > 0 && trimmed[0] != '#' {
            let (key, val) = chars::split_directive(trimmed);
            if let Err(e) = apply(&mut c, key, val, line) {
                proof {
                    error_stays(ls, line as nat, ls.len());
                }
                return Err(e);
            }
        }
        i = i + 1;
    }
    Ok(c)
}

/// Add an address to a list.
fn push_addr(v: &mut Vec<SocketAddr>, a: SocketAddr)
    ensures
        sockets_view(final(v)@) == sockets_view(old(v)@).push(a@),
{
    v.push(a);
    assert(sockets_view(v@) =~= sockets_view(old(v)@).push(a@));
}

} // verus!

//! What happens on one port once the connection attempt has ended: the
//! protocol table, the banner, and the outcome.
//!
//! A driver performs the connect, the optional write and the single read; after
//! each it asks this module what comes next. Every function here is total and
//! pure, so the three phases of one port can never be mixed with another's.

use crate::service::{get_service, service_name};
use crate::text::{
    append_decimal, debug_bytes, debug_bytes_string, decimal, lemma_debug_bytes_lossless,
};
use vstd::prelude::*;
use vstd::slice::*;
use vstd::string::*;
use vstd::utf8::*;

verus! {

/// The settings that every probe of a scan shares. Nothing changes them
/// once the scan has begun.
#[derive(Clone, Copy, Debug)]
pub struct Config {
    /// Seconds allowed for the connect, and again for the read.
    pub timeout_secs: u64,
    /// The size of the read buffer: no banner is made of more bytes.
    pub max_banner_length: usize,
    /// Whether port 443 is answered with the placeholder text.
    pub use_ssl: bool,
}

/// The timeout of a scan for which none was chosen, in seconds.
pub const DEFAULT_TIMEOUT_SECS: u64 = 1;

/// The size of the read buffer of a scan for which none was chosen.
pub const DEFAULT_MAX_BANNER_LENGTH: usize = 1024;

impl Default for Config {
    /// The settings of a scan for which none were chosen: one second, 1024
    /// bytes, no SSL placeholder.
    fn default() -> (config: Config)
        ensures
            config == (Config {
                timeout_secs: DEFAULT_TIMEOUT_SECS,
                max_banner_length: DEFAULT_MAX_BANNER_LENGTH,
                use_ssl: false,
            }),
    {
        Config {
            timeout_secs: DEFAULT_TIMEOUT_SECS,
            max_banner_length: DEFAULT_MAX_BANNER_LENGTH,
            use_ssl: false,
        }
    }
}

/// How a connection attempt ended.
#[derive(Clone, Copy, Debug, PartialEq, Eq, Structural)]
pub enum ConnectResult {
    /// The handshake completed within the timeout.
    Connected,
    /// The attempt ended with an error: refused, unreachable, or any other.
    Failed,
    /// The attempt did not end within the timeout.
    TimedOut,
}

/// How the one read of a probe ended.
#[derive(Debug)]
pub enum ReadResult {
    /// The read returned these bytes, possibly none.
    Received(Vec<u8>),
    /// The read ended with an error.
    Failed,
    /// The read did not end within the timeout.
    TimedOut,
}

impl View for ReadResult {
    type V = Option<Seq<u8>>;

    /// The bytes that were read, if the read returned at all. A failure and
    /// a timeout are not told apart.
    open spec fn view(&self) -> Option<Seq<u8>> {
        match self {
            ReadResult::Received(bytes) => Some(bytes@),
            _ => None,
        }
    }
}

/// The banner of an open port from which nothing could be read.
pub open spec fn no_banner() -> Seq<char> {
    "No banner"@
}

/// The banner of port 443 when the SSL flag is set. No handshake takes place.
pub open spec fn ssl_placeholder() -> Seq<char> {
    "SSL enabled (banner retrieval requires SSL library)"@
}

/// The request sent to an HTTP port.
pub open spec fn http_request() -> Seq<u8> {
    "GET / HTTP/1.0\r\nHost: target\r\n\r\n".spec_bytes()
}

/// The greeting sent to an SMTP port.
pub open spec fn smtp_greeting() -> Seq<u8> {
    "EHLO test\r\n".spec_bytes()
}

/// The protocol table: what is written to a port before reading from it.
/// `None` means that nothing is written and the read is passive.
pub open spec fn probe_payload(port: int) -> Option<Seq<u8>> {
    if port == 80 || port == 8080 {
        Some(http_request())
    } else if port == 25 || port == 587 {
        Some(smtp_greeting())
    } else {
        None
    }
}

/// Whether `port` is answered with the placeholder instead of being read.
pub open spec fn ssl_short_circuit(port: int, use_ssl: bool) -> bool {
    port == 443 && use_ssl
}

/// The characters that `trimmed` removes: those with the Unicode property
/// White_Space.
pub open spec fn is_white_space(c: char) -> bool {
    let u = c as u32;
    ||| 0x09 <= u <= 0x0d
    ||| u == 0x20
    ||| u == 0x85
    ||| u == 0xa0
    ||| u == 0x1680
    ||| 0x2000 <= u <= 0x200a
    ||| u == 0x2028
    ||| u == 0x2029
    ||| u == 0x202f
    ||| u == 0x205f
    ||| u == 0x3000
}

/// `s` without its leading white space.
pub open spec fn trimmed_start(s: Seq<char>) -> Seq<char>
    decreases s.len(),
{
    if s.len() > 0 && is_white_space(s.first()) {
        trimmed_start(s.drop_first())
    } else {
        s
    }
}

/// `s` without its trailing white space.
pub open spec fn trimmed_end(s: Seq<char>) -> Seq<char>
    decreases s.len(),
{
    if s.len() > 0 && is_white_space(s.last()) {
        trimmed_end(s.drop_last())
    } else {
        s
    }
}

/// `s` without the white space at either end. What lies between is kept
/// as it is.
pub open spec fn trimmed(s: Seq<char>) -> Seq<char> {
    trimmed_end(trimmed_start(s))
}

/// The banner made of the bytes that one read returned.
///
/// No bytes give the sentinel. Bytes that are well-formed UTF-8 give their
/// text, trimmed. Any other bytes give the list of their values, so that a
/// binary greeting still shows.
pub open spec fn banner_of_bytes(bytes: Seq<u8>) -> Seq<char> {
    if bytes.len() == 0 {
        no_banner()
    } else if valid_utf8(bytes) {
        trimmed(decode_utf8(bytes))
    } else {
        debug_bytes(bytes)
    }
}

/// The banner after the read phase. `None` stands for a read that failed or
/// did not end in time; otherwise at most the first `max_len` bytes count.
pub open spec fn banner_of_read(max_len: nat, read: Option<Seq<u8>>) -> Seq<char> {
    match read {
        None => no_banner(),
        Some(bytes) => if bytes.len() <= max_len {
            banner_of_bytes(bytes)
        } else {
            banner_of_bytes(bytes.take(max_len as int))
        },
    }
}

/// What a `PortOutcome` holds, as plain values.
pub struct OutcomeView {
    pub port: int,
    pub is_open: bool,
    pub service: Seq<char>,
    pub banner: Option<Seq<char>>,
}

/// The outcome of a port that accepted the connection.
pub open spec fn open_outcome(port: int, banner: Seq<char>) -> OutcomeView {
    OutcomeView { port, is_open: true, service: service_name(port), banner: Some(banner) }
}

/// The outcome of a port that did not: timeout, refusal and unreachable
/// host are not told apart.
pub open spec fn closed_outcome(port: int) -> OutcomeView {
    OutcomeView { port, is_open: false, service: service_name(port), banner: None }
}

/// The line printed for an open port.
pub open spec fn open_port_line(port: int, banner: Seq<char>) -> Seq<char>
    recommends
        0 <= port,
{
    "Port "@ + decimal(port as nat) + ": Open ("@ + service_name(port) + ") - "@ + banner
}

/// The line that an outcome contributes to the output: one for an open
/// port, none for any other.
pub open spec fn report_line(outcome: OutcomeView) -> Option<Seq<char>> {
    if outcome.is_open && outcome.banner is Some {
        Some(open_port_line(outcome.port, outcome.banner->0))
    } else {
        None
    }
}

/// The terminal result of probing one port.
///
/// A banner is present exactly when the port is open, and the service name
/// is the one that the port number has in the table.
pub struct PortOutcome {
    port: u16,
    is_open: bool,
    service: String,
    banner: Option<String>,
}

impl View for PortOutcome {
    type V = OutcomeView;

    closed spec fn view(&self) -> OutcomeView {
        OutcomeView {
            port: self.port as int,
            is_open: self.is_open,
            service: self.service@,
            banner: match self.banner {
                Some(b) => Some(b@),
                None => None,
            },
        }
    }
}

impl PortOutcome {
    #[verifier::type_invariant]
    spec fn well_formed(self) -> bool {
        &&& self.is_open == (self.banner is Some)
        &&& self.service@ == service_name(self.port as int)
    }

    /// The outcome of a port that accepted the connection.
    pub fn reachable(port: u16, banner: String) -> (outcome: PortOutcome)
        ensures
            outcome@ == open_outcome(port as int, banner@),
    {
        PortOutcome { port, is_open: true, service: get_service(port).to_owned(), banner: Some(banner) }
    }

    /// The outcome of a port that did not accept the connection.
    pub fn unreachable(port: u16) -> (outcome: PortOutcome)
        ensures
            outcome@ == closed_outcome(port as int),
    {
        PortOutcome { port, is_open: false, service: get_service(port).to_owned(), banner: None }
    }

    /// The port that was probed.
    pub fn port(&self) -> (port: u16)
        ensures
            port == self@.port,
    {
        self.port
    }

    /// Whether the port accepted the connection. A banner is present
    /// exactly when it did.
    pub fn is_open(&self) -> (is_open: bool)
        ensures
            is_open == self@.is_open,
            is_open == (self@.banner is Some),
    {
        proof {
            use_type_invariant(self);
        }
        self.is_open
    }

    /// The name of the service that the port number stands for.
    pub fn service(&self) -> (service: &str)
        ensures
            service@ == self@.service,
            service@ == service_name(self@.port),
    {
        proof {
            use_type_invariant(self);
        }
        self.service.as_str()
    }

    /// The banner, which only an open port has.
    pub fn banner(&self) -> (banner: Option<&str>)
        ensures
            match banner {
                Some(b) => self@.banner == Some(b@),
                None => self@.banner is None,
            },
            banner is Some ==> self@.is_open,
    {
        proof {
            use_type_invariant(self);
        }
        match &self.banner {
            Some(b) => Some(b.as_str()),
            None => None,
        }
    }

    /// The line to print for this outcome, if it is to be printed.
    pub fn line(&self) -> (line: Option<String>)
        ensures
            match line {
                Some(l) => report_line(self@) == Some(l@),
                None => report_line(self@) is None,
            },
            line is Some <==> self@.is_open,
    {
        proof {
            use_type_invariant(self);
            reveal_strlit("Port ");
            reveal_strlit(": Open (");
            reveal_strlit(") - ");
        }
        match &self.banner {
            Some(banner) => {
                let mut l = String::new();
                l.append("Port ");
                append_decimal(&mut l, self.port as u32);
                l.append(": Open (");
                l.append(self.service.as_str());
                l.append(") - ");
                l.append(banner.as_str());
                assert(l@ =~= open_port_line(self.port as int, banner@));
                Some(l)
            },
            None => None,
        }
    }
}

/// What the driver does next for a port.
pub enum ProbeStep {
    /// Write these bytes to the connection.
    Send(Vec<u8>),
    /// Read once, into a buffer of so many bytes, within so many seconds.
    Receive { max_len: usize, timeout_secs: u64 },
    /// Nothing more: this is the port's outcome.
    Done(PortOutcome),
}

/// What a `ProbeStep` holds, as plain values.
pub enum StepView {
    Send(Seq<u8>),
    Receive { max_len: nat, timeout_secs: nat },
    Done(OutcomeView),
}

impl View for ProbeStep {
    type V = StepView;

    open spec fn view(&self) -> StepView {
        match self {
            ProbeStep::Send(payload) => StepView::Send(payload@),
            ProbeStep::Receive { max_len, timeout_secs } => StepView::Receive {
                max_len: *max_len as nat,
                timeout_secs: *timeout_secs as nat,
            },
            ProbeStep::Done(outcome) => StepView::Done(outcome@),
        }
    }
}

/// The one read of a probe: the buffer has the configured size, and the
/// time allowed is the same as for the connect.
pub open spec fn read_step(config: Config) -> StepView {
    StepView::Receive {
        max_len: config.max_banner_length as nat,
        timeout_secs: config.timeout_secs as nat,
    }
}

/// The step that follows the connection attempt.
pub open spec fn step_after_connect(config: Config, port: int, connected: bool) -> StepView {
    if !connected {
        StepView::Done(closed_outcome(port))
    } else if ssl_short_circuit(port, config.use_ssl) {
        StepView::Done(open_outcome(port, ssl_placeholder()))
    } else {
        match probe_payload(port) {
            Some(payload) => StepView::Send(payload),
            None => read_step(config),
        }
    }
}

/// The step that follows the write. A failed write ends the probe at once,
/// and the port stays open.
pub open spec fn step_after_write(config: Config, port: int, written: bool) -> StepView {
    if written {
        read_step(config)
    } else {
        StepView::Done(open_outcome(port, no_banner()))
    }
}

/// The outcome that follows the read.
pub open spec fn outcome_after_read(config: Config, port: int, read: Option<Seq<u8>>) -> OutcomeView {
    open_outcome(port, banner_of_read(config.max_banner_length as nat, read))
}

/// The outcome of one port, given how each phase went. A phase that the
/// steps before it rule out has no influence on the outcome.
pub open spec fn probe_outcome(
    config: Config,
    port: int,
    connected: bool,
    written: bool,
    read: Option<Seq<u8>>,
) -> OutcomeView {
    match step_after_connect(config, port, connected) {
        StepView::Done(outcome) => outcome,
        StepView::Receive { .. } => outcome_after_read(config, port, read),
        StepView::Send(_) => match step_after_write(config, port, written) {
            StepView::Done(outcome) => outcome,
            _ => outcome_after_read(config, port, read),
        },
    }
}

/// Whether `trimmed` cuts `s` down to the characters from `from` up to, not
/// including, `to`: white space before and after, none at either end of
/// what is kept.
pub open spec fn is_trim_of(s: Seq<char>, from: int, to: int) -> bool {
    &&& 0 <= from <= to <= s.len()
    &&& forall|i: int| 0 <= i < from ==> is_white_space(#[trigger] s[i])
    &&& forall|i: int| to <= i < s.len() ==> is_white_space(#[trigger] s[i])
    &&& from < to ==> !is_white_space(s[from]) && !is_white_space(s[to - 1])
}

proof fn lemma_trimmed_start(s: Seq<char>) -> (from: int)
    ensures
        0 <= from <= s.len(),
        trimmed_start(s) == s.skip(from),
        forall|i: int| 0 <= i < from ==> is_white_space(#[trigger] s[i]),
        from < s.len() ==> !is_white_space(s[from]),
    decreases s.len(),
{
    if s.len() > 0 && is_white_space(s.first()) {
        let rest = s.drop_first();
        let k = lemma_trimmed_start(rest);
        assert(rest.skip(k) =~= s.skip(k + 1));
        assert forall|i: int| 0 <= i < k + 1 implies is_white_space(#[trigger] s[i]) by {
            if i > 0 {
                assert(rest[i - 1] == s[i]);
            }
        }
        if k + 1 < s.len() {
            assert(rest[k] == s[k + 1]);
        }
        k + 1
    } else {
        assert(s.skip(0) =~= s);
        0
    }
}

proof fn lemma_trimmed_end(s: Seq<char>) -> (to: int)
    ensures
        0 <= to <= s.len(),
        trimmed_end(s) == s.take(to),
        forall|i: int| to <= i < s.len() ==> is_white_space(#[trigger] s[i]),
        0 < to ==> !is_white_space(s[to - 1]),
    decreases s.len(),
{
    if s.len() > 0 && is_white_space(s.last()) {
        let rest = s.drop_last();
        let k = lemma_trimmed_end(rest);
        assert(rest.take(k) =~= s.take(k));
        assert forall|i: int| k <= i < s.len() implies is_white_space(#[trigger] s[i]) by {
            if i < s.len() - 1 {
                assert(rest[i] == s[i]);
            }
        }
        if 0 < k {
            assert(rest[k - 1] == s[k - 1]);
        }
        k
    } else {
        assert(s.take(s.len() as int) =~= s);
        s.len() as int
    }
}

/// Trimming keeps a text verbatim between its first and its last
/// character that is not white space, and removes nothing else.
pub proof fn lemma_trimmed_is_verbatim(s: Seq<char>)
    ensures
        exists|from: int, to: int| #[trigger]
            is_trim_of(s, from, to) && trimmed(s) == s.subrange(from, to),
{
    let from = lemma_trimmed_start(s);
    let tail = s.skip(from);
    let k = lemma_trimmed_end(tail);
    let to = from + k;
    assert(tail.take(k) =~= s.subrange(from, to));
    assert forall|i: int| to <= i < s.len() implies is_white_space(#[trigger] s[i]) by {
        assert(tail[i - from] == s[i]);
    }
    if from < to {
        assert(tail[k - 1] == s[to - 1]);
    }
    assert(is_trim_of(s, from, to));
}

/// Bytes that are text are reported as that text, trimmed; bytes that are
/// not are reported as the list of their values. Nothing that was read is
/// left out of the banner but the white space around a text.
pub proof fn lemma_banner_keeps_what_was_read(bytes: Seq<u8>)
    requires
        bytes.len() > 0,
    ensures
        valid_utf8(bytes) ==> banner_of_bytes(bytes) == trimmed(decode_utf8(bytes)),
        !valid_utf8(bytes) ==> banner_of_bytes(bytes) == debug_bytes(bytes),
{
}

/// Bytes that are no text are never dropped nor mixed up: two different
/// byte strings that are no text have different banners.
pub proof fn lemma_binary_banner_is_lossless(a: Seq<u8>, b: Seq<u8>)
    requires
        !valid_utf8(a),
        !valid_utf8(b),
        banner_of_bytes(a) == banner_of_bytes(b),
    ensures
        a == b,
{
    lemma_debug_bytes_lossless(a, b);
}

/// A port whose connection attempt did not succeed in time is closed and
/// adds no line to the output, whatever else is reported of it.
pub proof fn lemma_unconnected_port_is_silent(
    config: Config,
    port: int,
    written: bool,
    read: Option<Seq<u8>>,
)
    ensures
        probe_outcome(config, port, false, written, read) == closed_outcome(port),
        report_line(probe_outcome(config, port, false, written, read)) is None,
{
}

/// A port that accepted the connection is reported open whatever happens
/// afterwards: a failed write or a failed read only costs the banner.
pub proof fn lemma_connected_port_is_reported(
    config: Config,
    port: int,
    written: bool,
    read: Option<Seq<u8>>,
)
    ensures
        probe_outcome(config, port, true, written, read).is_open,
        probe_outcome(config, port, true, written, read).banner is Some,
        report_line(probe_outcome(config, port, true, written, read)) is Some,
        probe_payload(port) is Some && !written && !ssl_short_circuit(port, config.use_ssl)
            ==> probe_outcome(config, port, true, written, read) == open_outcome(
            port,
            no_banner(),
        ),
{
}

/// A read that returns no bytes, fails or times out gives the banner
/// "No banner", and the port is still open. This is about ports that are
/// read from: port 443 under the SSL flag is not.
pub proof fn lemma_empty_read_gives_sentinel(
    config: Config,
    port: int,
    written: bool,
    read: Option<Seq<u8>>,
)
    requires
        !ssl_short_circuit(port, config.use_ssl),
        read matches Some(bytes) ==> bytes.len() == 0,
    ensures
        probe_outcome(config, port, true, written, read) == open_outcome(port, no_banner()),
{
}

/// Under the SSL flag an open port 443 gets the placeholder banner, and
/// neither a write nor a read is asked for: what the peer does has no
/// influence.
pub proof fn lemma_ssl_placeholder(config: Config, written: bool, read: Option<Seq<u8>>)
    requires
        config.use_ssl,
    ensures
        step_after_connect(config, 443, true) == StepView::Done(
            open_outcome(443, ssl_placeholder()),
        ),
        probe_outcome(config, 443, true, written, read) == open_outcome(443, ssl_placeholder()),
{
}

/// The service name of an outcome is that of its port, whatever was sent
/// or received.
pub proof fn lemma_service_depends_on_port_alone(
    config: Config,
    port: int,
    connected: bool,
    written: bool,
    read: Option<Seq<u8>>,
)
    ensures
        probe_outcome(config, port, connected, written, read).service == service_name(port),
        probe_outcome(config, port, connected, written, read).port == port,
{
}

/// `std::str::from_utf8`: the bytes are returned as text exactly when they
/// are well-formed UTF-8, and the text is then made of those same bytes.
#[verifier::external_body]
fn utf8_text<'a>(bytes: &'a [u8]) -> (text: Option<&'a str>)
    ensures
        text is Some <==> valid_utf8(bytes@),
        text matches Some(s) ==> s.spec_bytes() == bytes@,
{
    match std::str::from_utf8(bytes) {
        Ok(s) => Some(s),
        Err(_) => None,
    }
}

/// `str::trim`: the text without the leading and trailing characters that
/// have the Unicode property White_Space.
#[verifier::external_body]
fn trim_text<'a>(s: &'a str) -> (t: &'a str)
    ensures
        t@ == trimmed(s@),
{
    s.trim()
}

/// Makes the banner out of the bytes that one read returned.
pub fn decode_banner(bytes: &[u8]) -> (banner: String)
    ensures
        banner@ == banner_of_bytes(bytes@),
{
    if bytes.len() == 0 {
        "No banner".to_owned()
    } else {
        match utf8_text(bytes) {
            Some(text) => {
                proof {
                    encode_utf8_decode_utf8(text@);
                }
                trim_text(text).to_owned()
            },
            None => debug_bytes_string(bytes),
        }
    }
}

impl Config {
    /// Decides what follows the connection attempt on `port`.
    ///
    /// A port whose attempt failed or timed out is done, and closed: the
    /// two are not told apart, and nothing is tried again. Port 443 under the
    /// SSL flag is done, and open, without a byte being written or read. A
    /// port of the protocol table gets its payload; any other port is read
    /// from directly.
    pub fn after_connect(&self, port: u16, result: ConnectResult) -> (step: ProbeStep)
        ensures
            step@ == step_after_connect(*self, port as int, result is Connected),
    {
        let connected = match result {
            ConnectResult::Connected => true,
            ConnectResult::Failed => false,
            ConnectResult::TimedOut => false,
        };
        if !connected {
            ProbeStep::Done(PortOutcome::unreachable(port))
        } else if port == 443 && self.use_ssl {
            ProbeStep::Done(
                PortOutcome::reachable(
                    port,
                    "SSL enabled (banner retrieval requires SSL library)".to_owned(),
                ),
            )
        } else if port == 80 || port == 8080 {
            ProbeStep::Send("GET / HTTP/1.0\r\nHost: target\r\n\r\n".as_bytes_vec())
        } else if port == 25 || port == 587 {
            ProbeStep::Send("EHLO test\r\n".as_bytes_vec())
        } else {
            self.read()
        }
    }

    /// The one read of a probe.
    fn read(&self) -> (step: ProbeStep)
        ensures
            step@ == read_step(*self),
    {
        ProbeStep::Receive { max_len: self.max_banner_length, timeout_secs: self.timeout_secs }
    }

    /// Decides what follows the write on `port`.
    pub fn after_write(&self, port: u16, written: bool) -> (step: ProbeStep)
        ensures
            step@ == step_after_write(*self, port as int, written),
    {
        if written {
            self.read()
        } else {
            ProbeStep::Done(PortOutcome::reachable(port, "No banner".to_owned()))
        }
    }

    /// Makes the outcome of `port` after its read. The port is open
    /// however the read ended; of the bytes that it returned, no more than
    /// the buffer holds are used.
    pub fn after_read(&self, port: u16, read: ReadResult) -> (outcome: PortOutcome)
        ensures
            outcome@ == outcome_after_read(*self, port as int, read@),
    {
        let banner = match read {
            ReadResult::Received(bytes) => {
                if bytes.len() <= self.max_banner_length {
                    decode_banner(bytes.as_slice())
                } else {
                    decode_banner(slice_subrange(bytes.as_slice(), 0, self.max_banner_length))
                }
            },
            ReadResult::Failed => "No banner".to_owned(),
            ReadResult::TimedOut => "No banner".to_owned(),
        };
        PortOutcome::reachable(port, banner)
    }
}

} // verus!

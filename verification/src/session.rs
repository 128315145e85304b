//! Connection sessions and their pure logic: endpoint identity, reconnect
//! backoff, outgoing line sizing, nick mentions and ignore masks.

use vstd::prelude::*;

use crate::casemap::spec_canonicalize;
use crate::channel::opt_view;
use crate::commands::{
    command_line_contains_credentials, service_message_contains_credentials, spec_command_line_contains_credentials,
    spec_service_message_contains_credentials,
};
use crate::message::ChatMessage;
use crate::formatting::{find_seq_from, lemma_next_occ, next_occ, occurs_at};
use crate::glob::{mask_matches, mask_spec};
use crate::network::{spec_is_channel, spec_network_canonicalize, NetworkSupport};
use crate::numfmt::{dec, push_dec};
use crate::text::{
    chars_eq, chars_of, contains_char, eq_ignore_ascii_case, has_char, is_irc_nick_char, is_whitespace, push_char,
    push_str, range_eq_ignore_ascii_case, skip_word, spec_is_irc_nick_char, string_from_range, sub_chars,
    to_lowercase, to_string, trim, trim_start, trim_string, unicode_lowercase, views,
};

verus! {

/// Why the current connection is being closed, which decides what happens
/// once its worker exits.
#[derive(Debug, Clone, Copy, PartialEq, Eq, Structural)]
pub enum ConnectionIntent {
    /// No close is pending.
    Idle,
    ManualDisconnect,
    ReconnectAfterClose,
}

/// Statistics from one virtualized scrollback pass.
#[derive(Debug, Clone, Copy, PartialEq, Eq, Structural)]
pub struct ScrollbackStats {
    /// Rows actually laid out this frame (visible band plus straddlers).
    pub drawn: usize,
    /// Heights that had to be measured fresh (cold cache or layout change).
    pub measured: usize,
    pub total_rows: usize,
}

/// The identity of a server endpoint: host (lower-cased), port and TLS.
#[derive(Debug, Clone)]
pub struct EndpointKey {
    pub host: String,
    pub port: u16,
    pub use_tls: bool,
}

/// What one connection to a server authenticates with.
#[derive(Debug, Clone)]
pub struct ServerConfig {
    pub host: String,
    pub port: u16,
    pub use_tls: bool,
    pub accept_invalid_certs: bool,
    pub nick: String,
    pub username: String,
    pub realname: String,
    pub password: Option<String>,
    pub sasl_username: Option<String>,
    pub sasl_password: Option<String>,
    /// IRCv3 draft/pre-away value sent before registration completes.
    pub pre_away_message: Option<String>,
    /// Nefarious draft/persistence profile attached during registration.
    pub persistence_profile: Option<String>,
}

/// Immutable configuration for one connection/reconnection lifecycle: the
/// server it connects to and the automation an automatic reconnect repeats.
/// Edits of the connection form while a socket is open do not touch it.
#[derive(Debug, Clone)]
pub struct SessionConfig {
    pub server: ServerConfig,
    pub auto_join_channels: String,
    pub auto_perform: String,
    pub set_invisible: bool,
}

/// The label of an endpoint: `host:port`, with an IPv6 host (one that
/// contains `:`) in brackets.
pub open spec fn spec_endpoint_label(host: Seq<char>, port: u16) -> Seq<char> {
    let h = if has_char(host, ':') { seq!['['] + host + seq![']'] } else { host };
    h + seq![':'] + dec(port as nat)
}

/// The log identity of an endpoint: `tls://` or `plain://` and the
/// lower-cased label.
pub open spec fn spec_log_identity(host: Seq<char>, port: u16, use_tls: bool) -> Seq<char> {
    (if use_tls { "tls://"@ } else { "plain://"@ }) + unicode_lowercase(spec_endpoint_label(host, port))
}

impl SessionConfig {
    /// The endpoint identity (host compared case-insensitively).
    pub fn endpoint_key(&self) -> (r: EndpointKey)
        ensures
            r.host@ == unicode_lowercase(self.server.host@),
            r.port == self.server.port,
            r.use_tls == self.server.use_tls,
    {
        EndpointKey { host: to_lowercase(self.server.host.as_str()), port: self.server.port, use_tls: self.server.use_tls }
    }

    /// The endpoint as shown to the user (see `spec_endpoint_label`).
    pub fn endpoint_label(&self) -> (r: String)
        ensures
            r@ == spec_endpoint_label(self.server.host@, self.server.port),
    {
        let mut r = String::new();
        let has_colon = contains_char(&chars_of(self.server.host.as_str()), ':');
        if has_colon {
            push_char(&mut r, '[');
            push_str(&mut r, self.server.host.as_str());
            push_char(&mut r, ']');
        } else {
            push_str(&mut r, self.server.host.as_str());
        }
        push_char(&mut r, ':');
        push_dec(&mut r, self.server.port as u64);
        assert(r@ =~= spec_endpoint_label(self.server.host@, self.server.port));
        r
    }

    /// The identity under which this endpoint's chat logs are kept.
    pub fn log_identity(&self) -> (r: String)
        ensures
            r@ == spec_log_identity(self.server.host@, self.server.port, self.server.use_tls),
    {
        let mut r = if self.server.use_tls { to_string("tls://") } else { to_string("plain://") };
        let label = to_lowercase(self.endpoint_label().as_str());
        push_str(&mut r, label.as_str());
        r
    }

    /// Whether host-only legacy logs may belong to this endpoint: only the
    /// standard ports (6697 with TLS, 6667 without) qualify.
    pub fn allows_legacy_log_migration(&self) -> (r: bool)
        ensures
            r == ((self.server.use_tls && self.server.port == 6697) || (!self.server.use_tls && self.server.port == 6667)),
    {
        (self.server.use_tls && self.server.port == 6697) || (!self.server.use_tls && self.server.port == 6667)
    }
}

/// How many history lines to fetch: the requested count (else the
/// configured history length), at most the scrollback limit, at least 1.
pub fn total_history_limit(requested: Option<usize>, logging_history_lines: usize, max_scrollback: usize) -> (r: usize)
    ensures
        ({
            let wanted = match requested {
                Some(n) => n,
                None => logging_history_lines,
            };
            let capped = if wanted < max_scrollback { wanted } else { max_scrollback };
            r == if capped < 1 { 1 } else { capped }
        }),
{
    let wanted = match requested {
        Some(n) => n,
        None => logging_history_lines,
    };
    let capped = if wanted < max_scrollback { wanted } else { max_scrollback };
    if capped < 1 { 1 } else { capped }
}

/// The size of one CHATHISTORY page: what remains, at most the server's
/// advertised limit (100 when it gives none), at least 1.
pub fn history_page_limit(remaining: usize, chathistory_limit: Option<usize>) -> (r: usize)
    ensures
        ({
            let limit = match chathistory_limit {
                Some(l) => l,
                None => 100,
            };
            let capped = if remaining < limit { remaining } else { limit };
            r == if capped < 1 { 1 } else { capped }
        }),
{
    let limit = match chathistory_limit {
        Some(l) => l,
        None => 100,
    };
    let capped = if remaining < limit { remaining } else { limit };
    if capped < 1 { 1 } else { capped }
}

/// The CHATHISTORY reference of a message: `msgid=<id>` when it has an
/// id, else `timestamp=<server time>` when it has one, else none.
pub open spec fn spec_message_reference(message: ChatMessage) -> Option<Seq<char>> {
    match message.msgid {
        Some(id) => Some("msgid="@ + id@),
        None => match message.server_time {
            Some(t) => Some("timestamp="@ + t@),
            None => None,
        },
    }
}

/// The CHATHISTORY reference of a message (see `spec_message_reference`).
pub fn message_reference(message: &ChatMessage) -> (r: Option<String>)
    ensures
        opt_view(r) == spec_message_reference(*message),
{
    match &message.msgid {
        Some(id) => {
            let mut r = to_string("msgid=");
            push_str(&mut r, id.as_str());
            Some(r)
        },
        None => match &message.server_time {
            Some(t) => {
                let mut r = to_string("timestamp=");
                push_str(&mut r, t.as_str());
                Some(r)
            },
            None => None,
        },
    }
}

/// What a redacted credential line shows instead.
pub open spec fn credential_placeholder() -> Seq<char> {
    "<credential command sent>"@
}

/// A message as shown and logged: our own message to a service that
/// carries credentials is shown as a placeholder and never logged (a
/// second line of defence behind the local echo).
pub fn redact_own_credentials(msg: ChatMessage, key: &str, support: &NetworkSupport, my_nick: &str) -> (r: ChatMessage)
    ensures
        ({
            let ours = spec_network_canonicalize(support.case_mapping, support.channel_types@, msg.sender@)
                == spec_network_canonicalize(support.case_mapping, support.channel_types@, my_nick@);
            if ours && spec_service_message_contains_credentials(key@, msg.content@) {
                r == (ChatMessage { content: r.content, no_log: true, ..msg }) && r.content@ == credential_placeholder()
            } else {
                r == msg
            }
        }),
{
    let mut m = msg;
    if support.identifiers_equal(m.sender.as_str(), my_nick)
        && service_message_contains_credentials(key, m.content.as_str()) {
        m.content = to_string("<credential command sent>");
        m.no_log = true;
    }
    m
}

/// The most query windows a flood of private messages may open.
pub const MAX_QUERY_WINDOWS: usize = 200;

/// Whether a message for `target` may open a new window: channels always
/// may; a query only while fewer than `MAX_QUERY_WINDOWS` query windows
/// (names that are not channels) are open.
pub fn new_window_allowed(support: &NetworkSupport, open_names: &[String], target: &str) -> (r: bool)
    ensures
        r == (spec_is_channel(support.channel_types@, target@)
            || views(open_names@).filter(|n: Seq<char>| !spec_is_channel(support.channel_types@, n)).len()
                < MAX_QUERY_WINDOWS),
{
    if support.is_channel(target) {
        return true;
    }
    let ghost ns = views(open_names@);
    let ghost pred = |n: Seq<char>| !spec_is_channel(support.channel_types@, n);
    let mut count: usize = 0;
    let mut i: usize = 0;
    while i < open_names.len()
        invariant
            i <= open_names.len(),
            ns == views(open_names@),
            pred == (|n: Seq<char>| !spec_is_channel(support.channel_types@, n)),
            count as int == ns.take(i as int).filter(pred).len(),
            count <= i,
        decreases open_names.len() - i,
    {
        let query = !support.is_channel(open_names[i].as_str());
        proof {
            assert(ns.take(i as int + 1).drop_last() =~= ns.take(i as int));
            assert(ns.take(i as int + 1).last() == open_names@[i as int]@);
            reveal_with_fuel(Seq::filter, 1);
        }
        if query {
            count += 1;
        }
        i += 1;
    }
    assert(ns.take(i as int) =~= ns);
    count < MAX_QUERY_WINDOWS
}

/// The longest backoff, in seconds.
pub const MAX_RECONNECT_DELAY_SECS: u64 = 60;

/// Reconnect backoff: `base * 2^min(attempts, 6)` seconds (saturating),
/// capped at `MAX_RECONNECT_DELAY_SECS`.
pub open spec fn spec_reconnect_delay(base: u32, attempts: u32) -> nat {
    let exp: nat = if attempts < 6 { attempts as nat } else { 6 };
    let d = base as nat * vstd::arithmetic::power2::pow2(exp);
    if d > 60 { 60 } else { d }
}

/// The connection state that drives automatic reconnection.
#[derive(Debug, Clone, Copy, PartialEq, Eq, Structural)]
pub struct ReconnectState {
    pub auto_reconnect: bool,
    pub connected: bool,
    pub connecting: bool,
    pub connection_lost: bool,
    pub reconnect_attempts: u32,
    pub max_reconnect_attempts: u32,
    pub reconnect_delay_secs: u32,
}

impl ReconnectState {
    /// Backoff before the next attempt, in whole seconds (see
    /// `spec_reconnect_delay`).
    pub fn get_reconnect_delay(&self) -> (r: u64)
        ensures
            r as nat == spec_reconnect_delay(self.reconnect_delay_secs, self.reconnect_attempts),
            r <= MAX_RECONNECT_DELAY_SECS,
    {
        let base = self.reconnect_delay_secs as u64;
        let exp: u32 = if self.reconnect_attempts < 6 { self.reconnect_attempts } else { 6 };
        proof {
            vstd::arithmetic::power2::lemma2_to64();
        }
        let factor: u64 = if exp == 0 { 1 } else if exp == 1 { 2 } else if exp == 2 { 4 } else if exp == 3 { 8 }
            else if exp == 4 { 16 } else if exp == 5 { 32 } else { 64 };
        assert(factor == vstd::arithmetic::power2::pow2(exp as nat));
        assert(base * factor <= 4294967295 * 64) by (nonlinear_arith)
            requires base <= 4294967295, factor <= 64;
        let delay = base * factor;
        if delay > MAX_RECONNECT_DELAY_SECS { MAX_RECONNECT_DELAY_SECS } else { delay }
    }

    /// Whether an automatic retry is still pending (regardless of whether
    /// its backoff deadline has passed).
    pub fn awaiting_reconnect(&self) -> (r: bool)
        ensures
            r == (self.auto_reconnect && self.connection_lost && !self.connecting
                && self.reconnect_attempts < self.max_reconnect_attempts),
    {
        self.auto_reconnect && self.connection_lost && !self.connecting
            && self.reconnect_attempts < self.max_reconnect_attempts
    }

    /// Whether to attempt reconnection now, given the whole seconds elapsed
    /// since the disconnect (`None` when its time is unknown).
    pub fn should_reconnect(&self, secs_since_disconnect: Option<u64>) -> (r: bool)
        ensures
            r == (self.awaiting_reconnect_spec() && match secs_since_disconnect {
                Some(e) => e as nat >= spec_reconnect_delay(self.reconnect_delay_secs, self.reconnect_attempts),
                None => true,
            }),
    {
        if !self.awaiting_reconnect() {
            return false;
        }
        match secs_since_disconnect {
            Some(elapsed) => elapsed >= self.get_reconnect_delay(),
            None => true,
        }
    }

    pub open spec fn awaiting_reconnect_spec(&self) -> bool {
        self.auto_reconnect && self.connection_lost && !self.connecting
            && self.reconnect_attempts < self.max_reconnect_attempts
    }

    /// Reset reconnection state (called on successful connect).
    pub fn reset_reconnect_state(&mut self)
        ensures
            *final(self) == (ReconnectState { reconnect_attempts: 0, connection_lost: false, ..*old(self) }),
    {
        self.reconnect_attempts = 0;
        self.connection_lost = false;
    }

    /// Mark the connection as lost (called on disconnect).
    pub fn mark_connection_lost(&mut self)
        ensures
            *final(self) == (ReconnectState { connected: false, connection_lost: true, ..*old(self) }),
    {
        self.connected = false;
        self.connection_lost = true;
    }

    /// A disconnect the user asked for: whatever the state (connected,
    /// connecting, or waiting to retry), nothing is pending any more; the
    /// auto-reconnect setting itself is kept.
    pub fn manual_disconnect(&mut self)
        ensures
            *final(self) == (ReconnectState { connected: false, connecting: false, connection_lost: false, ..*old(self) }),
    {
        self.connected = false;
        self.connecting = false;
        self.connection_lost = false;
    }

    /// Begin a reconnection attempt.
    pub fn start_reconnect(&mut self)
        requires
            old(self).reconnect_attempts < u32::MAX,
        ensures
            *final(self) == (ReconnectState {
                reconnect_attempts: (old(self).reconnect_attempts + 1) as u32,
                connecting: true,
                connection_lost: false,
                ..*old(self)
            }),
    {
        self.reconnect_attempts = self.reconnect_attempts + 1;
        self.connecting = true;
        self.connection_lost = false;
    }
}

/// After a manual disconnect no automatic reconnection is attempted, however
/// long ago the connection dropped, and the auto-reconnect setting is kept.
pub proof fn lemma_manual_disconnect_stops_reconnect(before: ReconnectState, after: ReconnectState)
    requires
        after == (ReconnectState { connected: false, connecting: false, connection_lost: false, ..before }),
    ensures
        !after.awaiting_reconnect_spec(),
        after.auto_reconnect == before.auto_reconnect,
{
}

/// The backoff never exceeds a minute, and it never shrinks as attempts
/// accumulate.
pub proof fn lemma_reconnect_delay_bounded(base: u32, a: u32, b: u32)
    requires
        a <= b,
    ensures
        spec_reconnect_delay(base, a) <= 60,
        spec_reconnect_delay(base, a) <= spec_reconnect_delay(base, b),
{
    let ea: nat = if a < 6 { a as nat } else { 6 };
    let eb: nat = if b < 6 { b as nat } else { 6 };
    if ea < eb {
        vstd::arithmetic::power2::lemma_pow2_strictly_increases(ea, eb);
    }
    assert(base as nat * vstd::arithmetic::power2::pow2(ea) <= base as nat * vstd::arithmetic::power2::pow2(eb)) by (nonlinear_arith)
        requires vstd::arithmetic::power2::pow2(ea) <= vstd::arithmetic::power2::pow2(eb);
}

/// UTF-8 length of one character.
pub open spec fn utf8_len(c: char) -> nat {
    if (c as u32) < 0x80 { 1 } else if (c as u32) < 0x800 { 2 } else if (c as u32) < 0x10000 { 3 } else { 4 }
}

/// UTF-8 length of a string.
pub open spec fn utf8_len_seq(s: Seq<char>) -> nat
    decreases s.len(),
{
    if s.len() == 0 { 0 } else { utf8_len_seq(s.drop_last()) + utf8_len(s.last()) }
}

/// Number of leading characters of `s` (from `k`) that fit in `budget`
/// bytes of UTF-8: the longest char-boundary prefix within the budget.
pub open spec fn fit_count(s: Seq<char>, budget: nat, k: int) -> int
    decreases s.len() - k,
{
    if k < 0 || k >= s.len() || utf8_len_seq(s.take(k + 1)) > budget {
        k
    } else {
        fit_count(s, budget, k + 1)
    }
}

fn utf8_len_exec(c: char) -> (r: usize)
    ensures
        r as nat == utf8_len(c),
        1 <= r <= 4,
{
    let n = c as u32;
    if n < 0x80 { 1 } else if n < 0x800 { 2 } else if n < 0x10000 { 3 } else { 4 }
}

/// The number of leading characters of `v[from..]` whose UTF-8 encoding
/// fits in `budget` bytes, and the UTF-8 length of all of `v[from..]`
/// (saturating at `budget + 1`).
fn fit_prefix(v: &Vec<char>, from: usize, budget: usize) -> (r: usize)
    requires
        from <= v.len(),
        budget < usize::MAX - 4,
    ensures
        r as int == fit_count(v@.subrange(from as int, v@.len() as int), budget as nat, 0),
        r <= v.len() - from,
{
    let ghost s = v@.subrange(from as int, v@.len() as int);
    let mut k: usize = 0;
    let mut used: usize = 0;
    while from + k < v.len()
        invariant
            from + k <= v.len(),
            s == v@.subrange(from as int, v@.len() as int),
            used as nat == utf8_len_seq(s.take(k as int)),
            used <= budget,
            budget < usize::MAX - 4,
            fit_count(s, budget as nat, 0) == fit_count(s, budget as nat, k as int),
        decreases v.len() - from - k,
    {
        let c = utf8_len_exec(v[from + k]);
        proof {
            assert(s.take(k as int + 1).drop_last() =~= s.take(k as int));
            assert(s.take(k as int + 1).last() == v@[from + k]);
        }
        if used + c > budget {
            return k;
        }
        used = used + c;
        k += 1;
    }
    k
}

/// The longest QUIT reason that keeps "QUIT :reason" within the 510-byte
/// IRC line limit.
pub const MAX_QUIT_REASON_BYTES: usize = 504;

/// A QUIT reason cut to its longest char-boundary prefix of at most
/// `MAX_QUIT_REASON_BYTES` bytes.
pub open spec fn spec_clamp_quit_reason(r: Seq<char>) -> Seq<char> {
    r.take(fit_count(r, 504, 0))
}

/// Clamp a QUIT reason so the resulting line always fits in one IRC line
/// (an overlong QUIT must never be dropped by the line-length check).
pub fn clamp_quit_reason(reason: Option<String>) -> (r: Option<String>)
    ensures
        match reason {
            Some(s) => r.is_some() && r.unwrap()@ == spec_clamp_quit_reason(s@),
            None => r.is_none(),
        },
{
    match reason {
        Some(s) => {
            let v = chars_of(s.as_str());
            let n = fit_prefix(&v, 0, MAX_QUIT_REASON_BYTES);
            assert(v@.subrange(0, v@.len() as int) =~= v@);
            assert(v@.subrange(0, n as int) =~= v@.take(n as int));
            Some(string_from_range(&v, 0, n))
        },
        None => None,
    }
}

proof fn lemma_fit_count(s: Seq<char>, budget: nat, k: int)
    requires
        0 <= k <= s.len(),
        utf8_len_seq(s.take(k)) <= budget,
    ensures
        k <= fit_count(s, budget, k) <= s.len(),
        utf8_len_seq(s.take(fit_count(s, budget, k))) <= budget,
        fit_count(s, budget, k) < s.len() ==> utf8_len_seq(s.take(fit_count(s, budget, k) + 1)) > budget,
    decreases s.len() - k,
{
    if k < s.len() && utf8_len_seq(s.take(k + 1)) <= budget {
        lemma_fit_count(s, budget, k + 1);
    }
}

/// A clamped QUIT reason is a prefix of the reason, fits the byte budget,
/// and is the longest such prefix.
pub proof fn lemma_clamp_quit_reason(r: Seq<char>)
    ensures
        spec_clamp_quit_reason(r).len() <= r.len(),
        r.take(spec_clamp_quit_reason(r).len() as int) == spec_clamp_quit_reason(r),
        utf8_len_seq(spec_clamp_quit_reason(r)) <= MAX_QUIT_REASON_BYTES,
        spec_clamp_quit_reason(r).len() < r.len()
            ==> utf8_len_seq(r.take(spec_clamp_quit_reason(r).len() as int + 1)) > MAX_QUIT_REASON_BYTES,
{
    assert(r.take(0) =~= Seq::<char>::empty());
    lemma_fit_count(r, 504, 0);
}

/// The largest IRC line, in bytes, without CRLF.
pub const IRC_MAX_LINE_BYTES: usize = 510;

/// Payload pieces of `s`, each the longest prefix of the rest within
/// `max` bytes; `None` if some character does not fit at all.
pub open spec fn payload_chunks(s: Seq<char>, max: nat) -> Option<Seq<Seq<char>>>
    decreases s.len(),
{
    if s.len() == 0 {
        Some(Seq::empty())
    } else {
        let e = fit_count(s, max, 0);
        if e <= 0 || e > s.len() {
            None
        } else {
            match payload_chunks(s.subrange(e, s.len() as int), max) {
                Some(rest) => Some(seq![s.take(e)] + rest),
                None => None,
            }
        }
    }
}

/// The bytes `COMMAND target :prefix…suffix` needs besides the payload.
pub open spec fn payload_overhead(command: Seq<char>, target: Seq<char>, prefix: Seq<char>, suffix: Seq<char>) -> nat {
    utf8_len_seq(command) + 1 + utf8_len_seq(target) + 2 + utf8_len_seq(prefix) + utf8_len_seq(suffix)
}

/// Text split into wrapped payloads that each fit one IRC line.
pub open spec fn spec_split_irc_text_payload(command: Seq<char>, target: Seq<char>, text: Seq<char>,
    prefix: Seq<char>, suffix: Seq<char>) -> Option<Seq<Seq<char>>> {
    let overhead = payload_overhead(command, target, prefix, suffix);
    if overhead >= 510 {
        None
    } else if utf8_len_seq(text) <= 510 - overhead {
        Some(seq![prefix + text + suffix])
    } else {
        match payload_chunks(text, (510 - overhead) as nat) {
            Some(cs) => Some(wrap_payloads(cs, prefix, suffix)),
            None => None,
        }
    }
}

/// Each payload wrapped in `prefix` and `suffix`.
pub open spec fn wrap_payloads(cs: Seq<Seq<char>>, prefix: Seq<char>, suffix: Seq<char>) -> Seq<Seq<char>> {
    cs.map_values(|c: Seq<char>| prefix + c + suffix)
}

/// The UTF-8 length of `s`, or `None` once it exceeds `cap`.
pub(crate) fn utf8_len_capped(s: &str, cap: usize) -> (r: Option<usize>)
    requires
        cap < usize::MAX - 4,
    ensures
        match r {
            Some(n) => n as nat == utf8_len_seq(s@) && n <= cap,
            None => utf8_len_seq(s@) > cap,
        },
{
    let v = chars_of(s);
    let mut n: usize = 0;
    let mut i: usize = 0;
    while i < v.len()
        invariant
            i <= v.len(),
            v@ == s@,
            n as nat == utf8_len_seq(v@.take(i as int)),
            n <= cap,
            cap < usize::MAX - 4,
        decreases v.len() - i,
    {
        proof {
            assert(v@.take(i as int + 1).drop_last() =~= v@.take(i as int));
        }
        n = n + utf8_len_exec(v[i]);
        i += 1;
        if n > cap {
            proof {
                lemma_utf8_len_prefix(v@, i as int);
            }
            return None;
        }
    }
    assert(v@.take(v@.len() as int) =~= v@);
    Some(n)
}

proof fn lemma_utf8_len_prefix(s: Seq<char>, k: int)
    requires
        0 <= k <= s.len(),
    ensures
        utf8_len_seq(s.take(k)) <= utf8_len_seq(s),
    decreases s.len() - k,
{
    if k < s.len() {
        lemma_utf8_len_prefix(s, k + 1);
        assert(s.take(k + 1).drop_last() =~= s.take(k));
    } else {
        assert(s.take(k) =~= s);
    }
}

/// `text` cut into the payloads of `payload_chunks`: each the longest
/// char-boundary prefix of the rest within `max` bytes.
pub(crate) fn chunk_text(text: &str, max: usize) -> (r: Option<Vec<String>>)
    requires
        max <= 510,
    ensures
        payload_chunks(text@, max as nat) == match r {
            Some(v) => Some(views(v@)),
            None => None,
        },
{
    let tv = chars_of(text);
    let mut out: Vec<String> = Vec::new();
    let mut start: usize = 0;
    assert(tv@.subrange(0, tv@.len() as int) =~= text@);
    assert(views(out@) =~= Seq::<Seq<char>>::empty());
    assert(Seq::<Seq<char>>::empty() + Seq::<Seq<char>>::empty() =~= Seq::<Seq<char>>::empty());
    while start < tv.len()
        invariant
            start <= tv.len(),
            tv@ == text@,
            max <= 510,
            payload_chunks(text@, max as nat) == match payload_chunks(tv@.subrange(start as int, tv@.len() as int), max as nat) {
                Some(rest) => Some(views(out@) + rest),
                None => None::<Seq<Seq<char>>>,
            },
        decreases tv.len() - start,
    {
        let ghost rest = tv@.subrange(start as int, tv@.len() as int);
        let e = fit_prefix(&tv, start, max);
        if e == 0 {
            return None;
        }
        let piece = string_from_range(&tv, start, start + e);
        let ghost before = views(out@);
        out.push(piece);
        proof {
            assert(rest.take(e as int) =~= piece@);
            assert(rest.subrange(e as int, rest.len() as int) =~= tv@.subrange(start + e, tv@.len() as int));
            assert(views(out@) =~= before.push(piece@));
            match payload_chunks(rest.subrange(e as int, rest.len() as int), max as nat) {
                Some(r2) => {
                    assert(before + (seq![piece@] + r2) =~= views(out@) + r2);
                },
                None => {},
            }
        }
        start = start + e;
    }
    assert(tv@.subrange(start as int, tv@.len() as int) =~= Seq::<char>::empty());
    assert(views(out@) + Seq::<Seq<char>>::empty() =~= views(out@));
    Some(out)
}

/// Split outgoing text into payloads (each wrapped in `prefix`/`suffix`)
/// so that every `COMMAND target :payload` line fits in 510 bytes, cutting
/// only at character boundaries.
pub fn split_irc_text_payload(command: &str, target: &str, text: &str, wrapper_prefix: &str,
    wrapper_suffix: &str) -> (r: Option<Vec<String>>)
    ensures
        spec_split_irc_text_payload(command@, target@, text@, wrapper_prefix@, wrapper_suffix@) == match r {
            Some(v) => Some(views(v@)),
            None => None,
        },
{
    let oc = utf8_len_capped(command, 510);
    let ot = utf8_len_capped(target, 510);
    let op = utf8_len_capped(wrapper_prefix, 510);
    let os = utf8_len_capped(wrapper_suffix, 510);
    let ghost overhead = payload_overhead(command@, target@, wrapper_prefix@, wrapper_suffix@);
    let (c, t, p, s) = match (oc, ot, op, os) {
        (Some(c), Some(t), Some(p), Some(s)) => (c, t, p, s),
        _ => {
            return None;
        },
    };
    let overhead = c + 1 + t + 2 + p + s;
    if overhead >= IRC_MAX_LINE_BYTES {
        return None;
    }
    let max = IRC_MAX_LINE_BYTES - overhead;
    let tv = chars_of(text);
    let whole = utf8_len_capped(text, max);
    if let Some(_) = whole {
        let mut line = to_string(wrapper_prefix);
        push_str(&mut line, text);
        push_str(&mut line, wrapper_suffix);
        let mut out: Vec<String> = Vec::new();
        out.push(line);
        assert(views(out@) =~= seq![wrapper_prefix@ + text@ + wrapper_suffix@]);
        return Some(out);
    }
    let mut out: Vec<String> = Vec::new();
    let mut start: usize = 0;
    let ghost mut done: Seq<Seq<char>> = Seq::empty();
    assert(tv@.subrange(0, tv@.len() as int) =~= text@);
    assert(views(out@) =~= wrap_payloads(done, wrapper_prefix@, wrapper_suffix@));
    while start < tv.len()
        invariant
            start <= tv.len(),
            tv@ == text@,
            max < 510,
            overhead < 510,
            max == 510 - overhead,
            overhead as nat == payload_overhead(command@, target@, wrapper_prefix@, wrapper_suffix@),
            utf8_len_seq(text@) > max,
            payload_chunks(text@, max as nat) == match payload_chunks(tv@.subrange(start as int, tv@.len() as int), max as nat) {
                Some(rest) => Some(done + rest),
                None => None::<Seq<Seq<char>>>,
            },
            views(out@) == wrap_payloads(done, wrapper_prefix@, wrapper_suffix@),
        decreases tv.len() - start,
    {
        let ghost rest = tv@.subrange(start as int, tv@.len() as int);
        let e = fit_prefix(&tv, start, max);
        if e == 0 {
            return None;
        }
        let piece = string_from_range(&tv, start, start + e);
        let mut line = to_string(wrapper_prefix);
        push_str(&mut line, piece.as_str());
        push_str(&mut line, wrapper_suffix);
        let ghost before = out@;
        out.push(line);
        proof {
            assert(rest.take(e as int) =~= piece@);
            assert(rest.subrange(e as int, rest.len() as int) =~= tv@.subrange(start + e, tv@.len() as int));
            let d2 = done.push(piece@);
            match payload_chunks(rest.subrange(e as int, rest.len() as int), max as nat) {
                Some(r2) => {
                    assert(done + (seq![piece@] + r2) =~= d2 + r2);
                },
                None => {},
            }
            assert(wrap_payloads(d2, wrapper_prefix@, wrapper_suffix@)
                =~= wrap_payloads(done, wrapper_prefix@, wrapper_suffix@).push(wrapper_prefix@ + piece@ + wrapper_suffix@));
            assert(views(out@) =~= views(before).push(line@));
            done = d2;
        }
        start = start + e;
    }
    assert(tv@.subrange(start as int, tv@.len() as int) =~= Seq::<char>::empty());
    assert(done + Seq::<Seq<char>>::empty() =~= done);
    Some(out)
}

/// The payloads of a split, joined, are the original text, and each piece
/// is non-empty and fits the byte budget.
pub proof fn lemma_payload_chunks(s: Seq<char>, max: nat)
    requires
        payload_chunks(s, max) is Some,
    ensures
        flatten_chunks(payload_chunks(s, max).unwrap()) == s,
        forall|i: int| 0 <= i < payload_chunks(s, max).unwrap().len() ==> {
            &&& (#[trigger] payload_chunks(s, max).unwrap()[i]).len() > 0
            &&& utf8_len_seq(payload_chunks(s, max).unwrap()[i]) <= max
        },
    decreases s.len(),
{
    if s.len() > 0 {
        let e = fit_count(s, max, 0);
        assert(s.take(0) =~= Seq::<char>::empty());
        lemma_fit_count(s, max, 0);
        let rest = s.subrange(e, s.len() as int);
        lemma_payload_chunks(rest, max);
        let r2 = payload_chunks(rest, max).unwrap();
        let cs = payload_chunks(s, max).unwrap();
        assert(cs == seq![s.take(e)] + r2);
        lemma_flatten_cons(s.take(e), r2);
        assert(s.take(e) + rest =~= s);
        assert forall|i: int| 0 <= i < cs.len() implies {
            &&& (#[trigger] cs[i]).len() > 0
            &&& utf8_len_seq(cs[i]) <= max
        } by {
            if i > 0 {
                assert(cs[i] == r2[i - 1]);
            }
        }
    } else {
        assert(flatten_chunks(Seq::<Seq<char>>::empty()) =~= s);
    }
}

/// The pieces joined together.
pub open spec fn flatten_chunks(cs: Seq<Seq<char>>) -> Seq<char>
    decreases cs.len(),
{
    if cs.len() == 0 { Seq::empty() } else { cs[0] + flatten_chunks(cs.drop_first()) }
}

proof fn lemma_flatten_cons(x: Seq<char>, cs: Seq<Seq<char>>)
    ensures
        flatten_chunks(seq![x] + cs) == x + flatten_chunks(cs),
{
    assert((seq![x] + cs).drop_first() =~= cs);
}

/// Calls `SystemTime::now().duration_since(UNIX_EPOCH)` and converts the
/// result to milliseconds (0 for a clock before the epoch). Nothing is
/// claimed of the result: it depends on the clock.
#[verifier::external_body]
pub(crate) fn unix_now_millis() -> u128 {
    match std::time::SystemTime::now().duration_since(std::time::UNIX_EPOCH) {
        Ok(d) => d.as_millis(),
        Err(_) => 0,
    }
}

/// The suffix drawn from a clock reading in milliseconds: its last four
/// decimal digits.
pub fn millis_suffix(ms: u128) -> (r: u32)
    ensures
        r as nat == ms as nat % 10000,
{
    (ms % 10000) as u32
}

/// A small pseudo-random number (the clock's milliseconds modulo 10000),
/// used to derive an alternative nick. The clock decides which; every
/// outcome is below 10000.
pub fn rand_suffix() -> (r: u32)
    ensures
        r < 10000,
{
    millis_suffix(unix_now_millis())
}

/// Whether `needle` occurs in `h` at `p` with IRC-identifier boundaries on
/// both sides (no nick character just before or just after).
pub open spec fn ident_boundary(h: Seq<char>, p: int, n: nat) -> bool {
    &&& !(p > 0 && spec_is_irc_nick_char(h[p - 1]))
    &&& !(p + n < h.len() && spec_is_irc_nick_char(h[p + n]))
}

/// Scan the non-overlapping occurrences of `needle` from `from` (as
/// `str::match_indices` does) for one at identifier boundaries.
pub open spec fn ident_from(h: Seq<char>, needle: Seq<char>, from: int) -> bool
    decreases h.len() - from,
{
    if needle.len() == 0 || from < 0 {
        false
    } else {
        match next_occ(h, from, needle) {
            None => false,
            Some(p) => if p < from || p + needle.len() > h.len() {
                false
            } else {
                ident_boundary(h, p, needle.len()) || ident_from(h, needle, p + needle.len())
            },
        }
    }
}

/// True when `needle_key` occurs in `haystack_key` at IRC-identifier
/// boundaries. Both arguments must already be casemapped consistently.
pub fn ident_contains(haystack_key: &str, needle_key: &str) -> (r: bool)
    ensures
        r == ident_from(haystack_key@, needle_key@, 0),
{
    let h = chars_of(haystack_key);
    let n = chars_of(needle_key);
    if n.len() == 0 {
        return false;
    }
    let mut from: usize = 0;
    while from <= h.len()
        invariant
            h@ == haystack_key@,
            n@ == needle_key@,
            n.len() > 0,
            from <= h.len() + 1,
            ident_from(h@, n@, 0) == ident_from(h@, n@, from as int),
        decreases h.len() + 1 - from,
    {
        proof {
            lemma_next_occ(h@, from as int, n@);
        }
        let p = match find_seq_from(&h, from, &n) {
            Some(p) => p,
            None => {
                return false;
            },
        };
        let end = p + n.len();
        let before_ok = !(p > 0 && is_irc_nick_char(h[p - 1]));
        let after_ok = !(end < h.len() && is_irc_nick_char(h[end]));
        if before_ok && after_ok {
            return true;
        }
        from = end;
    }
    assert(next_occ(h@, from as int, n@).is_none());
    false
}

/// Whether `content` mentions us: our casemapped nick (when known) or one
/// of the casemapped highlight words occurs at identifier boundaries in the
/// casemapped content.
pub open spec fn spec_check_nick_mention(support: &NetworkSupport, my_nick_key: Seq<char>,
    highlight_keys: Seq<Seq<char>>, content: Seq<char>) -> bool {
    let key = spec_network_canonicalize(support.case_mapping, support.channel_types@, content);
    (my_nick_key.len() > 0 && ident_from(key, my_nick_key, 0))
        || exists|i: int| 0 <= i < highlight_keys.len() && ident_from(key, #[trigger] highlight_keys[i], 0)
}

/// Check whether a message mentions our nick or a highlight word (see
/// `spec_check_nick_mention`). IRC nicks and highlight words admit
/// punctuation, so identifier boundaries are checked rather than words.
pub fn check_nick_mention(support: &NetworkSupport, my_nick_key: &str, highlight_keys: &[String], content: &str) -> (r: bool)
    ensures
        r == spec_check_nick_mention(support, my_nick_key@, views(highlight_keys@), content@),
{
    let content_key = support.canonicalize(content);
    if !my_nick_key.is_empty() && ident_contains(content_key.as_str(), my_nick_key) {
        return true;
    }
    let mut i: usize = 0;
    while i < highlight_keys.len()
        invariant
            i <= highlight_keys.len(),
            content_key@ == spec_network_canonicalize(support.case_mapping, support.channel_types@, content@),
            forall|j: int| 0 <= j < i ==> !ident_from(content_key@, #[trigger] views(highlight_keys@)[j], 0),
        decreases highlight_keys.len() - i,
    {
        if ident_contains(content_key.as_str(), highlight_keys[i].as_str()) {
            assert(ident_from(content_key@, views(highlight_keys@)[i as int], 0));
            return true;
        }
        i += 1;
    }
    false
}

/// Whether a sender is ignored: an entry equal to the casemapped nick; a
/// wildcard entry without `!`/`@` matching the casemapped nick; or an entry
/// with a wildcard, `!` or `@` matching the casemapped full prefix. `keys[i]`
/// is the casemapped form of `patterns[i]`; entries pair up to the shorter
/// list.
pub open spec fn spec_is_ignored(support: &NetworkSupport, patterns: Seq<Seq<char>>, keys: Seq<Seq<char>>,
    sender: Seq<char>, prefix: Option<Seq<char>>) -> bool {
    let m = support.case_mapping;
    let ct = support.channel_types@;
    ignored_by_keys(patterns, keys, spec_network_canonicalize(m, ct, sender),
        match prefix { Some(p) => Some(spec_network_canonicalize(m, ct, p)), None => None })
}

/// Whether some ignore entry matches the casemapped sender and prefix.
pub open spec fn ignored_by_keys(patterns: Seq<Seq<char>>, keys: Seq<Seq<char>>, sender_key: Seq<char>,
    prefix_key: Option<Seq<char>>) -> bool {
    exists|i: int| 0 <= i < patterns.len() && i < keys.len()
        && #[trigger] ignore_entry_matches(patterns[i], keys[i], sender_key, prefix_key)
}

/// Whether one ignore entry matches (see `spec_is_ignored`).
pub open spec fn ignore_entry_matches(pattern: Seq<char>, key: Seq<char>, sender_key: Seq<char>, prefix_key: Option<Seq<char>>) -> bool {
    let wild = has_char(pattern, '*') || has_char(pattern, '?');
    let full = has_char(pattern, '!') || has_char(pattern, '@');
    key == sender_key || if wild && !full {
        mask_spec(key, sender_key)
    } else {
        (wild || full) && match prefix_key {
            Some(p) => mask_spec(key, p),
            None => false,
        }
    }
}

/// Check whether a sender is ignored by nick or mask (see
/// `spec_is_ignored`); `ignore_list_keys` is the casemapped ignore list.
pub fn is_ignored(support: &NetworkSupport, ignore_list: &[String], ignore_list_keys: &[String], sender: &str,
    prefix: Option<&str>) -> (r: bool)
    ensures
        r == spec_is_ignored(support, views(ignore_list@), views(ignore_list_keys@), sender@,
            match prefix { Some(p) => Some(p@), None => None }),
{
    let sender_key = support.canonicalize(sender);
    let prefix_key: Option<String> = match prefix {
        Some(p) => Some(support.canonicalize(p)),
        None => None,
    };
    let ghost pk = crate::channel::opt_view(prefix_key);
    let ghost pats = views(ignore_list@);
    let ghost keys = views(ignore_list_keys@);
    let mut i: usize = 0;
    while i < ignore_list.len() && i < ignore_list_keys.len()
        invariant
            i <= ignore_list.len(),
            pats == views(ignore_list@),
            keys == views(ignore_list_keys@),
            pk == crate::channel::opt_view(prefix_key),
            sender_key@ == spec_network_canonicalize(support.case_mapping, support.channel_types@, sender@),
            pk == match prefix {
                Some(p) => Some(spec_network_canonicalize(support.case_mapping, support.channel_types@, p@)),
                None => None::<Seq<char>>,
            },
            forall|j: int| 0 <= j < i && j < keys.len() ==> !#[trigger] ignore_entry_matches(pats[j], keys[j], sender_key@, pk),
        decreases ignore_list.len() - i,
    {
        let pattern = chars_of(ignore_list[i].as_str());
        let key = ignore_list_keys[i].as_str();
        let wild = contains_char(&pattern, '*') || contains_char(&pattern, '?');
        let full = contains_char(&pattern, '!') || contains_char(&pattern, '@');
        let hit = if chars_eq(&chars_of(key), &chars_of(sender_key.as_str())) {
            true
        } else if wild && !full {
            mask_matches(key, sender_key.as_str())
        } else if wild || full {
            match prefix_key.as_ref() {
                Some(p) => mask_matches(key, p.as_str()),
                None => false,
            }
        } else {
            false
        };
        assert(pats[i as int] == pattern@ && keys[i as int] == key@);
        assert(wild == (has_char(pats[i as int], '*') || has_char(pats[i as int], '?')));
        assert(full == (has_char(pats[i as int], '!') || has_char(pats[i as int], '@')));
        if hit {
            assert(ignore_entry_matches(pats[i as int], keys[i as int], sender_key@, pk));
            assert(i < pats.len() && i < keys.len());
            proof {
                let sp: Option<Seq<char>> = match prefix { Some(p) => Some(p@), None => None };
                let spk = match sp {
                    Some(p) => Some(spec_network_canonicalize(support.case_mapping, support.channel_types@, p)),
                    None => None::<Seq<char>>,
                };
                assert(spk == pk);
                assert(ignored_by_keys(pats, keys, sender_key@, pk));
                assert(spec_is_ignored(support, pats, keys, sender@, sp));
            }
            return true;
        }
        i += 1;
    }
    false
}

/// `target` without a leading status prefix (`@#chan` → `#chan`) when the
/// rest is a channel; anything else unchanged.
pub open spec fn spec_strip_status_prefix(support: &NetworkSupport, target: Seq<char>) -> Seq<char> {
    if spec_is_channel(support.channel_types@, target) || target.len() == 0 {
        target
    } else {
        let rest = target.subrange(1, target.len() as int);
        if has_char(support.status_prefixes@, target[0]) && spec_is_channel(support.channel_types@, rest) {
            rest
        } else {
            target
        }
    }
}

/// Remove a status prefix from a channel target (see
/// `spec_strip_status_prefix`).
pub fn strip_status_prefix<'a>(support: &NetworkSupport, target: &'a str) -> (r: &'a str)
    ensures
        r@ == spec_strip_status_prefix(support, target@),
{
    if support.is_channel(target) {
        return target;
    }
    let v = chars_of(target);
    if v.len() == 0 {
        return target;
    }
    let rest = target.substring_char(1, v.len());
    if contains_char(&chars_of(support.status_prefixes.as_str()), v[0]) && support.is_channel(rest) {
        rest
    } else {
        target
    }
}

/// A channel name: `name` itself if it is one, else `#name`.
pub fn normalize_channel_name(support: &NetworkSupport, name: &str) -> (r: String)
    ensures
        r@ == if spec_is_channel(support.channel_types@, name@) { name@ } else { seq!['#'] + name@ },
{
    if support.is_channel(name) {
        to_string(name)
    } else {
        let mut r = String::new();
        push_char(&mut r, '#');
        push_str(&mut r, name);
        r
    }
}

/// Browsing the input history with Up/Down: the entries sent so far, the
/// entry being shown (`None`: the live input), the live input saved while
/// browsing, and the input box.
#[derive(Debug, Clone)]
pub struct InputHistory {
    pub command_history: Vec<String>,
    pub history_index: Option<usize>,
    pub history_temp: String,
    pub input_text: String,
}

impl InputHistory {
    /// Show the previous history entry (saving the live input on the first
    /// step); nothing happens at the oldest entry or with no history.
    pub fn history_up(&mut self)
        requires
            old(self).history_index matches Some(i) ==> i < old(self).command_history@.len(),
        ensures
            final(self).command_history@ == old(self).command_history@,
            old(self).command_history@.len() == 0 ==> final(self)@ == old(self)@,
            old(self).command_history@.len() > 0 ==> match old(self).history_index {
                None => final(self).history_index == Some((old(self).command_history@.len() - 1) as usize)
                    && final(self).history_temp@ == old(self).input_text@
                    && final(self).input_text@ == old(self).command_history@.last()@,
                Some(i) => if i > 0 {
                    final(self).history_index == Some((i - 1) as usize)
                        && final(self).history_temp@ == old(self).history_temp@
                        && final(self).input_text@ == old(self).command_history@[i - 1]@
                } else {
                    final(self)@ == old(self)@
                },
            },
    {
        if self.command_history.len() == 0 {
            return;
        }
        match self.history_index {
            None => {
                self.history_temp = to_string(self.input_text.as_str());
                let last = self.command_history.len() - 1;
                self.history_index = Some(last);
                self.input_text = to_string(self.command_history[last].as_str());
            },
            Some(i) => {
                if i > 0 {
                    self.history_index = Some(i - 1);
                    self.input_text = to_string(self.command_history[i - 1].as_str());
                }
            },
        }
    }

    /// Show the next history entry, or past the newest one restore the saved
    /// live input.
    pub fn history_down(&mut self)
        requires
            old(self).history_index matches Some(i) ==> i < old(self).command_history@.len(),
        ensures
            final(self).command_history@ == old(self).command_history@,
            match old(self).history_index {
                None => final(self)@ == old(self)@,
                Some(i) => if i + 1 < old(self).command_history@.len() {
                    final(self).history_index == Some((i + 1) as usize)
                        && final(self).history_temp@ == old(self).history_temp@
                        && final(self).input_text@ == old(self).command_history@[i + 1]@
                } else {
                    final(self).history_index is None
                        && final(self).history_temp@.len() == 0
                        && final(self).input_text@ == old(self).history_temp@
                },
            },
    {
        if let Some(i) = self.history_index {
            if i < self.command_history.len() - 1 {
                self.history_index = Some(i + 1);
                self.input_text = to_string(self.command_history[i + 1].as_str());
            } else {
                self.history_index = None;
                self.input_text = to_string(self.history_temp.as_str());
                self.history_temp = String::new();
            }
        }
    }

    /// The browsing state as plain values.
    pub open spec fn view(&self) -> (Seq<Seq<char>>, Option<usize>, Seq<char>, Seq<char>) {
        (views(self.command_history@), self.history_index, self.history_temp@, self.input_text@)
    }
}


/// The message text of an input line that could carry a password to the
/// service in the current window: the line itself, or for `/say` its
/// argument; other commands carry none (they are checked as command lines).
pub open spec fn sensitive_candidate(line: Seq<char>) -> Seq<char> {
    if line.len() > 0 && line[0] == '/' {
        let cl = line.subrange(1, line.len() as int);
        let k = skip_word(cl, 0);
        if eq_ignore_ascii_case(cl.subrange(0, k), "SAY"@) {
            if k < cl.len() { trim_start(cl.subrange(k + 1, cl.len() as int)) } else { Seq::empty() }
        } else {
            Seq::empty()
        }
    } else {
        line
    }
}

/// Whether an input line sends credentials: a credential command line, or
/// (in a window) text that would be a credential message to that target.
pub open spec fn input_is_sensitive(line: Seq<char>, target: Option<Seq<char>>) -> bool {
    spec_command_line_contains_credentials(line) || match target {
        Some(t) => sensitive_candidate(line).len() > 0
            && spec_service_message_contains_credentials(t, sensitive_candidate(line)),
        None => false,
    }
}

/// The history after recording `line`: appended unless it repeats the last
/// entry, the oldest entry dropped beyond 100.
pub open spec fn recorded(history: Seq<Seq<char>>, line: Seq<char>) -> Seq<Seq<char>> {
    if history.len() > 0 && history.last() == line {
        history
    } else if history.len() + 1 > 100 {
        history.push(line).drop_first()
    } else {
        history.push(line)
    }
}

fn sensitive_candidate_exec(line: &str) -> (r: String)
    ensures
        r@ == sensitive_candidate(line@),
{
    let v = chars_of(line);
    if !(v.len() > 0 && v[0] == '/') {
        return to_string(line);
    }
    let cl = sub_chars(&v, 1, v.len());
    let mut k: usize = 0;
    while k < cl.len() && !is_whitespace(cl[k])
        invariant
            k <= cl.len(),
            skip_word(cl@, 0) == skip_word(cl@, k as int),
        decreases cl.len() - k,
    {
        k += 1;
    }
    let say = chars_of("SAY");
    if range_eq_ignore_ascii_case(&cl, 0, k, &say) {
        if k < cl.len() {
            let rest = string_from_range(&cl, k + 1, cl.len());
            crate::slash::trim_start_string(rest.as_str())
        } else {
            String::new()
        }
    } else {
        String::new()
    }
}

impl InputHistory {
    /// Enter the input line: its trimmed text is returned for processing
    /// and the input box is cleared; unless it carries credentials it is
    /// recorded (see `recorded`), and browsing starts over. A blank line
    /// changes nothing and returns an empty string.
    pub fn submit(&mut self, current_target: Option<&str>) -> (line: String)
        ensures
            line@ == trim(old(self).input_text@),
            line@.len() == 0 ==> final(self)@ == old(self)@,
            line@.len() > 0 ==> final(self)@ == (
                if input_is_sensitive(line@, match current_target { Some(t) => Some(t@), None => None }) {
                    views(old(self).command_history@)
                } else {
                    recorded(views(old(self).command_history@), line@)
                },
                None::<usize>,
                Seq::<char>::empty(),
                Seq::<char>::empty(),
            ),
    {
        let input = trim_string(self.input_text.as_str());
        if chars_of(input.as_str()).len() == 0 {
            return input;
        }
        let mut sensitive = command_line_contains_credentials(input.as_str());
        if !sensitive {
            if let Some(t) = current_target {
                let candidate = sensitive_candidate_exec(input.as_str());
                sensitive = chars_of(candidate.as_str()).len() > 0
                    && service_message_contains_credentials(t, candidate.as_str());
            }
        }
        let ghost h = views(self.command_history@);
        if !sensitive {
            let n = self.command_history.len();
            let repeat = n > 0 && chars_eq(&chars_of(self.command_history[n - 1].as_str()), &chars_of(input.as_str()));
            proof {
                if n > 0 {
                    assert(h.last() == self.command_history@[n - 1]@);
                }
            }
            if !repeat {
                self.command_history.push(to_string(input.as_str()));
                assert(views(self.command_history@) =~= h.push(input@));
                if self.command_history.len() > 100 {
                    let ghost pushed = views(self.command_history@);
                    self.command_history.remove(0);
                    assert(views(self.command_history@) =~= pushed.drop_first());
                }
            }
        }
        self.history_index = None;
        self.history_temp = String::new();
        self.input_text = String::new();
        input
    }
}

/// A recorded line is the newest history entry, the one Up shows first.
pub proof fn lemma_recorded_line_is_newest(history: Seq<Seq<char>>, line: Seq<char>)
    ensures
        recorded(history, line).len() > 0,
        recorded(history, line).last() == line,
{
}


/// The keys of the highlight words: the comma-separated entries, trimmed
/// and case-mapped, without empty ones.
pub open spec fn spec_highlight_keys(support: &NetworkSupport, words: Seq<char>) -> Seq<Seq<char>> {
    crate::commands::split_on(words, ',')
        .map_values(|w: Seq<char>| spec_network_canonicalize(support.case_mapping, support.channel_types@, trim(w)))
        .filter(|k: Seq<char>| k.len() > 0)
}

/// The highlight keys (see `spec_highlight_keys`).
pub fn highlight_keys(support: &NetworkSupport, words: &str) -> (r: Vec<String>)
    ensures
        views(r@) == spec_highlight_keys(support, words@),
{
    let pieces = crate::commands::split_char(words, ',');
    let ghost ps = views(pieces@);
    let ghost f = |w: Seq<char>| spec_network_canonicalize(support.case_mapping, support.channel_types@, trim(w));
    let mut out: Vec<String> = Vec::new();
    let mut i: usize = 0;
    while i < pieces.len()
        invariant
            i <= pieces.len(),
            ps == views(pieces@),
            f == (|w: Seq<char>| spec_network_canonicalize(support.case_mapping, support.channel_types@, trim(w))),
            views(out@) == ps.take(i as int).map_values(f).filter(|k: Seq<char>| k.len() > 0),
        decreases pieces.len() - i,
    {
        let ghost m = ps.take(i as int).map_values(f);
        assert(ps[i as int] == pieces@[i as int]@);
        assert(ps.take(i as int + 1).map_values(f) =~= m.push(f(ps[i as int])));
        proof {
            assert(m.push(f(ps[i as int])).drop_last() =~= m);
            reveal_with_fuel(Seq::filter, 1);
        }
        let k = support.canonicalize(trim_string(pieces[i].as_str()).as_str());
        if chars_of(k.as_str()).len() > 0 {
            let ghost before = views(out@);
            out.push(k);
            assert(views(out@) =~= before.push(f(ps[i as int])));
        }
        i += 1;
    }
    assert(ps.take(ps.len() as int) =~= ps);
    out
}

/// The case-mapped keys of the ignore entries, entry by entry (the keys
/// `is_ignored` expects beside the entries).
pub fn ignore_keys(support: &NetworkSupport, entries: &[String]) -> (r: Vec<String>)
    ensures
        r@.len() == entries@.len(),
        forall|i: int| 0 <= i < r@.len() ==> #[trigger] r@[i]@
            == spec_network_canonicalize(support.case_mapping, support.channel_types@, entries@[i]@),
{
    let mut out: Vec<String> = Vec::new();
    let mut i: usize = 0;
    while i < entries.len()
        invariant
            i <= entries.len(),
            out@.len() == i,
            forall|j: int| 0 <= j < i ==> #[trigger] out@[j]@
                == spec_network_canonicalize(support.case_mapping, support.channel_types@, entries@[j]@),
        decreases entries.len() - i,
    {
        out.push(support.canonicalize(entries[i].as_str()));
        i += 1;
    }
    out
}

/// The nickname to connect with: the configured one, or, when none is
/// configured, `Linefeed_` and the number `suffix`.
pub open spec fn spec_initial_nickname(configured: Seq<char>, suffix: nat) -> Seq<char> {
    if configured.len() == 0 { "Linefeed_"@ + dec(suffix) } else { configured }
}

/// The nickname to connect with, the suffix drawn with `rand_suffix`.
pub fn initial_nickname(configured: &str) -> (r: String)
    ensures
        exists|suffix: nat| suffix < 10000 && r@ == spec_initial_nickname(configured@, suffix),
{
    if chars_of(configured).len() > 0 {
        let r = to_string(configured);
        assert(r@ == spec_initial_nickname(configured@, 0));
        return r;
    }
    let suffix = rand_suffix();
    let mut r = to_string("Linefeed_");
    push_dec(&mut r, suffix as u64);
    assert(r@ == spec_initial_nickname(configured@, suffix as nat));
    r
}

} // verus!

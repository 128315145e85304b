//! Channel-list rows, list sorting choices, tab-completion state and saved
//! server favorites.

use vstd::prelude::*;

use crate::caps::parse_usize_exec;
use crate::channel::{lemma_lex_total, lemma_lex_trans, lex_le, lex_le_exec, opt_view};
use crate::slash::{contains_text, contains_text_exec};
use crate::commands::strip_leading;
use crate::network::{parse_usize, prefix_run_exec};
use crate::commands::{parse_server_port, spec_parse_server_port};
use crate::formatting::{spec_strip, strip_irc_formatting};
use crate::session::{utf8_len_capped, utf8_len_seq, ServerConfig, SessionConfig};
use crate::text::{
    chars_of, contains_char, has_char, string_from_range, to_lowercase, to_string, trim, trim_string,
    unicode_lowercase,
};

verus! {

/// Sort column for the channel list.
#[derive(Debug, Clone, Copy, PartialEq, Eq, Structural)]
pub enum ChannelListSort {
    Channel,
    Users,
    Topic,
}

impl Default for ChannelListSort {
    fn default() -> (r: Self)
        ensures
            r == ChannelListSort::Channel,
    {
        ChannelListSort::Channel
    }
}

/// Sort direction.
#[derive(Debug, Clone, Copy, PartialEq, Eq, Structural)]
pub enum SortDirection {
    Ascending,
    Descending,
}

impl Default for SortDirection {
    fn default() -> (r: Self)
        ensures
            r == SortDirection::Ascending,
    {
        SortDirection::Ascending
    }
}

/// Entry in the channel list dialog. Derived keys (lower-case name, topic
/// without formatting) are computed once at insert so filtering and sorting
/// many rows is allocation-free.
#[derive(Debug, Clone)]
pub struct ChannelListEntry {
    pub name: String,
    pub user_count: usize,
    /// Lower-cased name, for filtering and sorting.
    pub name_lower: String,
    /// Topic with IRC formatting stripped, for display.
    pub topic_clean: String,
    /// Lower-cased stripped topic, for filtering and sorting.
    pub topic_lower: String,
}

impl ChannelListEntry {
    pub fn new(name: String, user_count: usize, topic: String) -> (r: Self)
        ensures
            r.name@ == name@,
            r.user_count == user_count,
            r.name_lower@ == unicode_lowercase(name@),
            r.topic_clean@ == spec_strip(topic@),
            r.topic_lower@ == unicode_lowercase(spec_strip(topic@)),
    {
        let name_lower = to_lowercase(name.as_str());
        let topic_clean = strip_irc_formatting(topic.as_str());
        let topic_lower = to_lowercase(topic_clean.as_str());
        ChannelListEntry { name, user_count, name_lower, topic_clean, topic_lower }
    }
}

/// Tab completion state.
#[derive(Debug, Clone)]
pub struct TabCompletion {
    pub matches: Vec<String>,
    pub index: usize,
    /// Input before the original token being completed.
    pub base: String,
    /// Text appended after each candidate (`": "` for a leading nick, a
    /// single space for commands and other nick positions).
    pub suffix: String,
}

/// SASL mechanism to authenticate with.
#[derive(Debug, Clone, Copy, PartialEq, Eq, Structural)]
pub enum SaslMechanism {
    /// Pick the strongest mechanism the server offers.
    Auto,
    Plain,
    External,
    ScramSha256,
}

impl Default for SaslMechanism {
    fn default() -> (r: Self)
        ensures
            r == SaslMechanism::Auto,
    {
        SaslMechanism::Auto
    }
}

/// Server favorite for quick connect.
#[derive(Debug, Clone)]
pub struct ServerFavorite {
    /// Display name (e.g. "Libera Chat").
    pub name: String,
    pub host: String,
    pub port: String,
    pub use_tls: bool,
    pub password: String,
    /// Nick to use (empty = use default).
    pub nickname: String,
    /// Channels to auto-join (comma-separated).
    pub auto_join: String,
    /// Commands to run on connect (newline-separated).
    pub auto_perform: String,
    pub sasl_username: String,
    pub sasl_password: String,
    pub sasl_mechanism: SaslMechanism,
    pub sasl_required: bool,
    pub tls_client_cert_path: String,
    pub tls_client_key_path: String,
    pub username: String,
    pub realname: String,
    pub accept_invalid_certs: bool,
    /// IRCv3 draft/pre-away value sent before registration completes.
    pub pre_away_message: String,
    /// Nefarious draft/persistence profile attached during registration.
    pub persistence_profile: String,
}

impl Default for ServerFavorite {
    fn default() -> (r: Self)
        ensures
            r.name@.len() == 0 && r.host@.len() == 0 && r.port@.len() == 0 && !r.use_tls,
            r.password@.len() == 0 && r.nickname@.len() == 0 && r.auto_join@.len() == 0,
            r.auto_perform@.len() == 0 && r.sasl_username@.len() == 0 && r.sasl_password@.len() == 0,
            r.sasl_mechanism == SaslMechanism::Auto && !r.sasl_required,
            r.tls_client_cert_path@.len() == 0 && r.tls_client_key_path@.len() == 0,
            r.username@.len() == 0 && r.realname@.len() == 0 && !r.accept_invalid_certs,
            r.pre_away_message@.len() == 0 && r.persistence_profile@.len() == 0,
    {
        ServerFavorite {
            name: String::new(),
            host: String::new(),
            port: String::new(),
            use_tls: false,
            password: String::new(),
            nickname: String::new(),
            auto_join: String::new(),
            auto_perform: String::new(),
            sasl_username: String::new(),
            sasl_password: String::new(),
            sasl_mechanism: SaslMechanism::Auto,
            sasl_required: false,
            tls_client_cert_path: String::new(),
            tls_client_key_path: String::new(),
            username: String::new(),
            realname: String::new(),
            accept_invalid_certs: false,
            pre_away_message: String::new(),
            persistence_profile: String::new(),
        }
    }
}

/// The editable connection form.
#[derive(Debug, Clone)]
pub struct ConnectionForm {
    pub server_host: String,
    pub server_port: String,
    pub use_tls: bool,
    pub password: String,
    pub nickname: String,
    pub username: String,
    pub realname: String,
    pub auto_join_channels: String,
    pub auto_perform: String,
    pub pre_away_message: String,
    pub persistence_profile: String,
    pub sasl_username: String,
    pub sasl_password: String,
    pub accept_invalid_certs: bool,
}

/// `host` without one pair of enclosing brackets (an IPv6 literal).
pub open spec fn strip_host_brackets(h: Seq<char>) -> Seq<char> {
    if h.len() >= 2 && h[0] == '[' && h[h.len() - 1] == ']' {
        h.subrange(1, h.len() - 1)
    } else {
        h
    }
}

/// A character allowed in a persistence profile: ASCII letter, digit, `_`
/// or `-`.
pub open spec fn is_profile_char(c: char) -> bool {
    ||| ('a' <= c <= 'z')
    ||| ('A' <= c <= 'Z')
    ||| ('0' <= c <= '9')
    ||| c == '_'
    ||| c == '-'
}

/// A (trimmed) persistence profile is empty, or 1 to 32 profile
/// characters. (All of them being ASCII, characters and bytes agree.)
pub open spec fn profile_ok(p: Seq<char>) -> bool {
    p.len() == 0 || (p.len() <= 32 && forall|i: int| 0 <= i < p.len() ==> is_profile_char(#[trigger] p[i]))
}

/// A pre-away message is one IRC line of at most 300 bytes.
pub open spec fn pre_away_ok(m: Seq<char>) -> bool {
    !has_char(m, '\r') && !has_char(m, '\n') && utf8_len_seq(m) <= 300
}

/// `None` for an empty text, else the text.
pub open spec fn nonempty_or_none(s: Seq<char>) -> Option<Seq<char>> {
    if s.len() == 0 { None } else { Some(s) }
}

/// The first problem with a connection form, checked in order: host,
/// port, pre-away message, persistence profile.
pub open spec fn spec_form_error(form: ConnectionForm) -> Option<Seq<char>> {
    if strip_host_brackets(trim(form.server_host@)).len() == 0 {
        Some("Server host cannot be empty"@)
    } else if spec_parse_server_port(form.server_port@) is Err {
        Some(spec_parse_server_port(form.server_port@)->Err_0)
    } else if !pre_away_ok(form.pre_away_message@) {
        Some("Pre-away message must be one IRC line of at most 300 bytes"@)
    } else if !profile_ok(trim(form.persistence_profile@)) {
        Some("Persistence profile must be 1-32 letters, digits, '_' or '-'"@)
    } else {
        None
    }
}

/// The session a valid form describes: the host trimmed and unbracketed,
/// the parsed port, empty optional texts as `None`, the rest as typed.
pub open spec fn session_matches_form(s: SessionConfig, form: ConnectionForm, set_invisible: bool) -> bool {
    &&& s.server.host@ == strip_host_brackets(trim(form.server_host@))
    &&& spec_parse_server_port(form.server_port@) == Ok::<u16, Seq<char>>(s.server.port)
    &&& s.server.use_tls == form.use_tls
    &&& s.server.accept_invalid_certs == form.accept_invalid_certs
    &&& s.server.nick@ == form.nickname@
    &&& s.server.username@ == form.username@
    &&& s.server.realname@ == form.realname@
    &&& opt_view(s.server.password) == nonempty_or_none(form.password@)
    &&& opt_view(s.server.sasl_username) == nonempty_or_none(form.sasl_username@)
    &&& opt_view(s.server.sasl_password) == nonempty_or_none(form.sasl_password@)
    &&& opt_view(s.server.pre_away_message) == nonempty_or_none(form.pre_away_message@)
    &&& opt_view(s.server.persistence_profile) == nonempty_or_none(trim(form.persistence_profile@))
    &&& s.auto_join_channels@ == form.auto_join_channels@
    &&& s.auto_perform@ == form.auto_perform@
    &&& s.set_invisible == set_invisible
}

/// `None` for an empty string, else a copy of it.
fn nonempty_copy(s: &String) -> (r: Option<String>)
    ensures
        opt_view(r) == nonempty_or_none(s@),
{
    if s.as_str().is_empty() { None } else { Some(s.clone()) }
}

/// Whether every character of `v` is a profile character.
fn all_profile_chars(v: &Vec<char>) -> (r: bool)
    ensures
        r == forall|i: int| 0 <= i < v@.len() ==> is_profile_char(#[trigger] v@[i]),
{
    let mut i: usize = 0;
    while i < v.len()
        invariant
            i <= v.len(),
            forall|j: int| 0 <= j < i ==> is_profile_char(#[trigger] v@[j]),
        decreases v.len() - i,
    {
        let c = v[i];
        let ok = ('a' <= c && c <= 'z') || ('A' <= c && c <= 'Z') || ('0' <= c && c <= '9') || c == '_'
            || c == '-';
        if !ok {
            assert(!is_profile_char(v@[i as int]));
            return false;
        }
        i += 1;
    }
    true
}

impl ConnectionForm {
    /// Validate the form and build the session it describes, or the first
    /// problem found (see `spec_form_error`).
    pub fn session_from_form(&self, set_invisible: bool) -> (r: Result<SessionConfig, String>)
        ensures
            match r {
                Ok(s) => spec_form_error(*self) is None && session_matches_form(s, *self, set_invisible),
                Err(e) => spec_form_error(*self) == Some(e@),
            },
    {
        let trimmed = trim_string(self.server_host.as_str());
        let tv = chars_of(trimmed.as_str());
        let n = tv.len();
        let host = if n >= 2 && tv[0] == '[' && tv[n - 1] == ']' {
            string_from_range(&tv, 1, n - 1)
        } else {
            trimmed
        };
        if host.as_str().is_empty() {
            return Err(to_string("Server host cannot be empty"));
        }
        let port = match parse_server_port(self.server_port.as_str()) {
            Ok(p) => p,
            Err(e) => return Err(e),
        };
        let av = chars_of(self.pre_away_message.as_str());
        if contains_char(&av, '\r') || contains_char(&av, '\n')
            || utf8_len_capped(self.pre_away_message.as_str(), 300).is_none() {
            return Err(to_string("Pre-away message must be one IRC line of at most 300 bytes"));
        }
        let profile = trim_string(self.persistence_profile.as_str());
        let pv = chars_of(profile.as_str());
        if !pv.is_empty() && (pv.len() > 32 || !all_profile_chars(&pv)) {
            return Err(to_string("Persistence profile must be 1-32 letters, digits, '_' or '-'"));
        }
        let persistence_profile = if pv.is_empty() { None } else { Some(profile) };
        let server = ServerConfig {
            host,
            port,
            use_tls: self.use_tls,
            accept_invalid_certs: self.accept_invalid_certs,
            nick: self.nickname.clone(),
            username: self.username.clone(),
            realname: self.realname.clone(),
            password: nonempty_copy(&self.password),
            sasl_username: nonempty_copy(&self.sasl_username),
            sasl_password: nonempty_copy(&self.sasl_password),
            pre_away_message: nonempty_copy(&self.pre_away_message),
            persistence_profile,
        };
        Ok(SessionConfig {
            server,
            auto_join_channels: self.auto_join_channels.clone(),
            auto_perform: self.auto_perform.clone(),
            set_invisible,
        })
    }

    /// Load a server favorite into the form. Nick, username and real name
    /// are only taken when the favorite has one, so an older favorite does
    /// not wipe the current values.
    pub fn load_favorite(&mut self, fav: &ServerFavorite)
        ensures
            final(self).server_host@ == fav.host@,
            final(self).server_port@ == fav.port@,
            final(self).use_tls == fav.use_tls,
            final(self).password@ == fav.password@,
            final(self).nickname@ == if fav.nickname@.len() > 0 { fav.nickname@ } else { old(self).nickname@ },
            final(self).username@ == if fav.username@.len() > 0 { fav.username@ } else { old(self).username@ },
            final(self).realname@ == if fav.realname@.len() > 0 { fav.realname@ } else { old(self).realname@ },
            final(self).auto_join_channels@ == fav.auto_join@,
            final(self).auto_perform@ == fav.auto_perform@,
            final(self).pre_away_message@ == fav.pre_away_message@,
            final(self).persistence_profile@ == fav.persistence_profile@,
            final(self).sasl_username@ == fav.sasl_username@,
            final(self).sasl_password@ == fav.sasl_password@,
            final(self).accept_invalid_certs == fav.accept_invalid_certs,
    {
        self.server_host = fav.host.clone();
        self.server_port = fav.port.clone();
        self.use_tls = fav.use_tls;
        self.password = fav.password.clone();
        if !fav.nickname.as_str().is_empty() {
            self.nickname = fav.nickname.clone();
        }
        self.auto_join_channels = fav.auto_join.clone();
        self.auto_perform = fav.auto_perform.clone();
        self.pre_away_message = fav.pre_away_message.clone();
        self.persistence_profile = fav.persistence_profile.clone();
        self.sasl_username = fav.sasl_username.clone();
        self.sasl_password = fav.sasl_password.clone();
        if !fav.username.as_str().is_empty() {
            self.username = fav.username.clone();
        }
        if !fav.realname.as_str().is_empty() {
            self.realname = fav.realname.clone();
        }
        self.accept_invalid_certs = fav.accept_invalid_certs;
    }
}

/// `s` without its commas (thousands separators).
pub open spec fn without_commas(s: Seq<char>) -> Seq<char> {
    s.filter(|c: char| c != ',')
}

/// A user count in a LIST reply: digits (and `+`) with optional commas,
/// read after any leading `+`.
pub open spec fn spec_parse_count(p: Seq<char>) -> Option<usize> {
    let clean = without_commas(p);
    if clean.len() > 0 && forall|i: int| 0 <= i < clean.len() ==> ('0' <= #[trigger] clean[i] <= '9' || clean[i] == '+') {
        parse_usize(strip_leading(clean, seq!['+']))
    } else {
        None
    }
}

/// The first parameter at or after `i` naming a channel (`#` or `&`).
pub open spec fn first_channel_param(params: Seq<Seq<char>>, i: int) -> Option<int>
    decreases params.len() - i,
{
    if i < 0 || i >= params.len() {
        None
    } else if params[i].len() > 0 && (params[i][0] == '#' || params[i][0] == '&') {
        Some(i)
    } else {
        first_channel_param(params, i + 1)
    }
}

/// The first user count among `params[i..end]`.
pub open spec fn first_count(params: Seq<Seq<char>>, i: int, end: int) -> Option<usize>
    decreases end - i,
{
    if i < 0 || i >= end || i >= params.len() {
        None
    } else if spec_parse_count(params[i]) is Some {
        spec_parse_count(params[i])
    } else {
        first_count(params, i + 1, end)
    }
}

/// A LIST reply (`322`) read as channel, user count and topic. The count
/// follows the channel; with a single parameter after the channel, that is
/// the count unless it is not a number (then it is the topic). Otherwise
/// the last parameter is the topic, even when it is numeric, and the count
/// is the first number in between (0 if none). Without a channel
/// parameter, the standard positions are assumed (name, count, topic),
/// given at least three parameters.
pub open spec fn spec_parse_list_reply(params: Seq<Seq<char>>) -> Option<(Seq<char>, usize, Seq<char>)> {
    let n = params.len() as int;
    match first_channel_param(params, 0) {
        Some(ci) if ci + 1 < n => {
            let last = params[n - 1];
            if ci + 1 == n - 1 {
                match spec_parse_count(last) {
                    Some(c) => Some((params[ci], c, Seq::empty())),
                    None => Some((params[ci], 0usize, last)),
                }
            } else {
                let c = match first_count(params, ci + 1, n - 1) {
                    Some(c) => c,
                    None => 0usize,
                };
                Some((params[ci], c, last))
            }
        },
        _ => if n >= 3 {
            let c = match parse_usize(without_commas(params[2])) {
                Some(c) => c,
                None => 0usize,
            };
            Some((params[1], c, if n >= 4 { params[3] } else { Seq::empty() }))
        } else {
            None
        },
    }
}

fn without_commas_exec(s: &str) -> (r: Vec<char>)
    ensures
        r@ == without_commas(s@),
{
    let v = chars_of(s);
    let mut out: Vec<char> = Vec::new();
    let mut i: usize = 0;
    while i < v.len()
        invariant
            i <= v.len(),
            v@ == s@,
            out@ == v@.take(i as int).filter(|c: char| c != ','),
        decreases v.len() - i,
    {
        proof {
            assert(v@.take(i as int + 1).drop_last() =~= v@.take(i as int));
            assert(v@.take(i as int + 1).last() == v@[i as int]);
            reveal_with_fuel(Seq::filter, 1);
        }
        if v[i] != ',' {
            out.push(v[i]);
        }
        i += 1;
    }
    assert(v@.take(i as int) =~= v@);
    out
}

/// A LIST user count (see `spec_parse_count`).
pub fn parse_count(p: &str) -> (r: Option<usize>)
    ensures
        r == spec_parse_count(p@),
{
    let clean = without_commas_exec(p);
    if clean.len() == 0 {
        return None;
    }
    let mut i: usize = 0;
    while i < clean.len()
        invariant
            i <= clean.len(),
            clean@ == without_commas(p@),
            forall|j: int| 0 <= j < i ==> ('0' <= #[trigger] clean@[j] <= '9' || clean@[j] == '+'),
        decreases clean.len() - i,
    {
        let c = clean[i];
        if !(('0' <= c && c <= '9') || c == '+') {
            assert(!('0' <= clean@[i as int] <= '9' || clean@[i as int] == '+'));
            return None;
        }
        i += 1;
    }
    let mut plus: Vec<char> = Vec::new();
    plus.push('+');
    assert(plus@ =~= seq!['+']);
    let start = prefix_run_exec(&clean, &plus);
    let rest = crate::text::sub_chars(&clean, start, clean.len());
    assert(rest@ == strip_leading(clean@, seq!['+']));
    parse_usize_exec(&rest)
}

/// Read a LIST reply (see `spec_parse_list_reply`).
pub fn parse_list_reply(params: &[String]) -> (r: Option<(String, usize, String)>)
    ensures
        spec_parse_list_reply(crate::text::views(params@)) == match r {
            Some((name, count, topic)) => Some((name@, count, topic@)),
            None => None,
        },
{
    let ghost ps = crate::text::views(params@);
    let n = params.len();
    let mut ci: usize = 0;
    while ci < n && !(params[ci].as_str().is_empty() == false && starts_channel(params[ci].as_str()))
        invariant
            ci <= n,
            n == params@.len(),
            ps == crate::text::views(params@),
            first_channel_param(ps, 0) == first_channel_param(ps, ci as int),
        decreases n - ci,
    {
        ci += 1;
    }
    proof {
        if ci < n {
            assert(ps[ci as int] == params@[ci as int]@);
            assert(first_channel_param(ps, ci as int) == Some(ci as int));
        } else {
            assert(first_channel_param(ps, ci as int) is None);
        }
        if n > 0 {
            assert(ps[n - 1] == params@[n - 1]@);
        }
        if n >= 3 {
            assert(ps[1] == params@[1]@ && ps[2] == params@[2]@);
        }
        if n >= 4 {
            assert(ps[3] == params@[3]@);
        }
    }
    if ci < n && ci + 1 < n {
        let last = params[n - 1].clone();
        if ci + 1 == n - 1 {
            return match parse_count(last.as_str()) {
                Some(c) => Some((params[ci].clone(), c, String::new())),
                None => Some((params[ci].clone(), 0, last)),
            };
        }
        let mut j = ci + 1;
        let mut count: usize = 0;
        let mut found = false;
        while j < n - 1 && !found
            invariant
                ci + 1 <= j <= n - 1,
                n == params@.len(),
                ps == crate::text::views(params@),
                ci + 1 < n - 1,
                !found ==> count == 0,
                !found ==> first_count(ps, ci + 1, n - 1) == first_count(ps, j as int, n - 1),
                found ==> first_count(ps, ci + 1, n - 1) == Some(count),
            decreases n - j,
        {
            proof {
                assert(ps[j as int] == params@[j as int]@);
            }
            match parse_count(params[j].as_str()) {
                Some(c) => {
                    count = c;
                    found = true;
                },
                None => {},
            }
            j += 1;
        }
        proof {
            if !found {
                assert(first_count(ps, j as int, n - 1) is None);
            }
            assert(ps[ci as int] == params@[ci as int]@);
        }
        return Some((params[ci].clone(), count, last));
    }
    if n >= 3 {
        let c = match parse_usize_exec(&without_commas_exec(params[2].as_str())) {
            Some(c) => c,
            None => 0,
        };
        let topic = if n >= 4 { params[3].clone() } else { String::new() };
        return Some((params[1].clone(), c, topic));
    }
    None
}

fn starts_channel(p: &str) -> (r: bool)
    ensures
        r == (p@.len() > 0 && (p@[0] == '#' || p@[0] == '&')),
{
    let v = chars_of(p);
    v.len() > 0 && (v[0] == '#' || v[0] == '&')
}


/// Whether a channel-list row passes the lower-cased filter `f`: an empty
/// filter passes everything, otherwise the name or topic must contain it.
pub open spec fn row_matches(e: ChannelListEntry, f: Seq<char>) -> bool {
    f.len() == 0 || contains_text(e.name_lower@, f) || contains_text(e.topic_lower@, f)
}

/// Whether `a`'s sort key is at most `b`'s (names and topics compare by
/// code point, as `str` does).
pub open spec fn key_le(sort: ChannelListSort, a: ChannelListEntry, b: ChannelListEntry) -> bool {
    match sort {
        ChannelListSort::Channel => lex_le(a.name_lower@, b.name_lower@),
        ChannelListSort::Users => a.user_count <= b.user_count,
        ChannelListSort::Topic => lex_le(a.topic_lower@, b.topic_lower@),
    }
}

/// Whether row `a` may be listed before row `b` in direction `dir`.
pub open spec fn row_le(rows: Seq<ChannelListEntry>, sort: ChannelListSort, dir: SortDirection, a: int, b: int) -> bool {
    match dir {
        SortDirection::Ascending => key_le(sort, rows[a], rows[b]),
        SortDirection::Descending => key_le(sort, rows[b], rows[a]),
    }
}

/// Row `a` is listed before row `b`: its key comes first, or the keys are
/// equal and it came first (the sort is stable).
pub open spec fn row_before(rows: Seq<ChannelListEntry>, sort: ChannelListSort, dir: SortDirection, a: int, b: int) -> bool {
    row_le(rows, sort, dir, a, b) && (row_le(rows, sort, dir, b, a) ==> a < b)
}

/// `out` is the displayed channel list: the indices of the rows that pass
/// the filter, each once, sorted stably by the chosen column and direction.
pub open spec fn is_list_view(out: Seq<usize>, rows: Seq<ChannelListEntry>, f: Seq<char>, sort: ChannelListSort,
    dir: SortDirection) -> bool {
    &&& forall|i: int| 0 <= i < out.len() ==> out[i] < rows.len() && row_matches(rows[out[i] as int], f)
    &&& forall|k: int| 0 <= k < rows.len() && row_matches(rows[k], f) ==> out.contains(k as usize)
    &&& forall|i: int, j: int| 0 <= i < j < out.len() ==> row_before(rows, sort, dir, out[i] as int, out[j] as int)
}

proof fn lemma_key_total(sort: ChannelListSort, a: ChannelListEntry, b: ChannelListEntry)
    ensures
        key_le(sort, a, b) || key_le(sort, b, a),
{
    lemma_lex_total(a.name_lower@, b.name_lower@, 0);
    lemma_lex_total(a.topic_lower@, b.topic_lower@, 0);
}

proof fn lemma_key_trans(sort: ChannelListSort, a: ChannelListEntry, b: ChannelListEntry, c: ChannelListEntry)
    requires
        key_le(sort, a, b),
        key_le(sort, b, c),
    ensures
        key_le(sort, a, c),
{
    match sort {
        ChannelListSort::Channel => lemma_lex_trans(a.name_lower@, b.name_lower@, c.name_lower@, 0),
        ChannelListSort::Users => {},
        ChannelListSort::Topic => lemma_lex_trans(a.topic_lower@, b.topic_lower@, c.topic_lower@, 0),
    }
}

fn key_le_exec(sort: ChannelListSort, a: &ChannelListEntry, b: &ChannelListEntry) -> (r: bool)
    ensures
        r == key_le(sort, *a, *b),
{
    match sort {
        ChannelListSort::Channel => lex_le_exec(&chars_of(a.name_lower.as_str()), &chars_of(b.name_lower.as_str())),
        ChannelListSort::Users => a.user_count <= b.user_count,
        ChannelListSort::Topic => lex_le_exec(&chars_of(a.topic_lower.as_str()), &chars_of(b.topic_lower.as_str())),
    }
}

fn row_le_exec(rows: &[ChannelListEntry], sort: ChannelListSort, dir: SortDirection, a: usize, b: usize) -> (r: bool)
    requires
        a < rows@.len(),
        b < rows@.len(),
    ensures
        r == row_le(rows@, sort, dir, a as int, b as int),
{
    match dir {
        SortDirection::Ascending => key_le_exec(sort, &rows[a], &rows[b]),
        SortDirection::Descending => key_le_exec(sort, &rows[b], &rows[a]),
    }
}

/// The rows shown in the channel list for `filter` (compared lower-cased),
/// sorted by `sort` in direction `dir` (see `is_list_view`).
pub fn channel_list_view(rows: &[ChannelListEntry], filter: &str, sort: ChannelListSort, dir: SortDirection)
    -> (out: Vec<usize>)
    ensures
        is_list_view(out@, rows@, unicode_lowercase(filter@), sort, dir),
{
    let f = to_lowercase(filter);
    let empty = chars_of(f.as_str()).len() == 0;
    let ghost fv = f@;
    let mut out: Vec<usize> = Vec::new();
    let mut k: usize = 0;
    while k < rows.len()
        invariant
            k <= rows@.len(),
            fv == f@,
            fv == unicode_lowercase(filter@),
            empty == (fv.len() == 0),
            forall|i: int| 0 <= i < out@.len() ==> out@[i] < k && row_matches(rows@[out@[i] as int], fv),
            forall|m: int| 0 <= m < k && row_matches(rows@[m], fv) ==> out@.contains(m as usize),
            forall|i: int, j: int| 0 <= i < j < out@.len() ==> row_before(rows@, sort, dir, out@[i] as int, out@[j] as int),
        decreases rows@.len() - k,
    {
        let e = &rows[k];
        let pass = empty || contains_text_exec(e.name_lower.as_str(), f.as_str())
            || contains_text_exec(e.topic_lower.as_str(), f.as_str());
        if pass {
            let mut p: usize = 0;
            while p < out.len() && row_le_exec(rows, sort, dir, out[p], k)
                invariant
                    p <= out@.len(),
                    k < rows@.len(),
                    forall|i: int| 0 <= i < out@.len() ==> out@[i] < k,
                    forall|i: int| 0 <= i < p ==> row_le(rows@, sort, dir, #[trigger] out@[i] as int, k as int),
                decreases out@.len() - p,
            {
                p += 1;
            }
            let ghost before = out@;
            proof {
                assert forall|j: int| p <= j < before.len() implies !row_le(rows@, sort, dir, #[trigger] before[j] as int, k as int) by {
                    if j > p && row_le(rows@, sort, dir, before[j] as int, k as int) {
                        assert(row_before(rows@, sort, dir, before[p as int] as int, before[j] as int));
                        match dir {
                            SortDirection::Ascending => lemma_key_trans(sort, rows@[before[p as int] as int],
                                rows@[before[j] as int], rows@[k as int]),
                            SortDirection::Descending => lemma_key_trans(sort, rows@[k as int],
                                rows@[before[j] as int], rows@[before[p as int] as int]),
                        }
                    }
                }
            }
            out.insert(p, k);
            proof {
                assert(out@ =~= before.insert(p as int, k));
                assert forall|i: int, j: int| 0 <= i < j < out@.len() implies
                    row_before(rows@, sort, dir, #[trigger] out@[i] as int, #[trigger] out@[j] as int) by {
                    if j < p {
                        assert(out@[i] == before[i] && out@[j] == before[j]);
                    } else if j == p {
                        assert(out@[i] == before[i]);
                    } else if i == p {
                        assert(out@[j] == before[j - 1]);
                        lemma_key_total(sort, rows@[k as int], rows@[before[j - 1] as int]);
                    } else if i < p {
                        assert(out@[i] == before[i] && out@[j] == before[j - 1]);
                    } else {
                        assert(out@[i] == before[i - 1] && out@[j] == before[j - 1]);
                    }
                }
                assert forall|m: int| 0 <= m < k + 1 && row_matches(rows@[m], fv) implies out@.contains(m as usize) by {
                    if m < k {
                        assert(before.contains(m as usize));
                        let q = choose|q: int| 0 <= q < before.len() && before[q] == m as usize;
                        if q < p {
                            assert(out@[q] == m as usize);
                        } else {
                            assert(out@[q + 1] == m as usize);
                        }
                    } else {
                        assert(out@[p as int] == k);
                    }
                }
            }
        } else {
            proof {
                assert(!row_matches(rows@[k as int], fv));
            }
        }
        k += 1;
    }
    out
}

} // verus!

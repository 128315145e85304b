//! Server-advertised IRC support (ISUPPORT) that affects routing, case
//! mapping and membership prefixes.

use vstd::prelude::*;
use vstd::hash_map::StringHashMap;

use crate::casemap::{spec_canonicalize, CaseMapping};
use crate::numfmt::{parse_unsigned, parse_unsigned_range};
use crate::text::{
    ascii_upper_range, chars_eq, chars_of, contains_char, eq_ignore_ascii_case, find_char, find_from, has_char,
    lemma_find_first, lemma_find_from, push_char, push_str, range_eq_ignore_ascii_case, starts_with, starts_with_at,
    string_from_chars, string_from_range, ascii_upper_seq,
};

verus! {

/// Server-advertised IRC support that affects routing and user prefixes.
pub struct NetworkSupport {
    /// Complete, case-normalized ISUPPORT state. `None` represents a flag
    /// token and `Some` contains the value after `=`.
    pub isupport: StringHashMap<Option<String>>,
    pub case_mapping: CaseMapping,
    pub channel_types: String,
    pub user_prefixes: String,
    /// Mode letters corresponding position-wise to `user_prefixes`
    /// (from ISUPPORT `PREFIX=(modes)symbols`).
    pub prefix_modes: String,
    /// ISUPPORT CHANMODES groups: type A (lists; parameter in both
    /// directions), type B (parameter in both directions), type C (parameter
    /// only when set); type D never takes one.
    pub chanmodes_a: String,
    pub chanmodes_b: String,
    pub chanmodes_c: String,
    pub status_prefixes: String,
    pub history_reference_types: String,
    pub history_limit: Option<usize>,
    pub history_retention_secs: Option<u64>,
    pub nick_len: Option<usize>,
    pub channel_len: Option<usize>,
    pub topic_len: Option<usize>,
    pub away_len: Option<usize>,
    pub kick_len: Option<usize>,
    pub monitor_limit: Option<usize>,
    pub watch_limit: Option<usize>,
    pub silence_limit: Option<usize>,
    pub whox: bool,
    pub elist: String,
    pub safelist: bool,
    pub line_len: Option<usize>,
    pub client_tag_deny: Option<String>,
    pub bot_mode: Option<char>,
    pub except_mode: Option<char>,
    pub invex_mode: Option<char>,
    pub extban: Option<String>,
    pub network_name: Option<String>,
    pub utf8_only: bool,
    pub account_required: bool,
    pub multiline_max_bytes: Option<usize>,
    pub multiline_max_lines: Option<usize>,
}

/// The support assumed before the server says otherwise (see `default`).
pub open spec fn is_default_support(r: NetworkSupport) -> bool {
    &&& r.isupport@ == Map::<Seq<char>, Option<String>>::empty()
    &&& r.case_mapping == CaseMapping::Rfc1459
    &&& r.channel_types@ == seq!['#', '&', '+', '!']
    &&& r.user_prefixes@ == seq!['~', '&', '@', '%', '+']
    &&& r.prefix_modes@ == seq!['q', 'a', 'o', 'h', 'v']
    &&& r.chanmodes_a@ == seq!['b', 'e', 'I']
    &&& r.chanmodes_b@ == seq!['k']
    &&& r.chanmodes_c@ == seq!['l']
    &&& r.status_prefixes@ == seq!['@', '%', '+']
    &&& r.history_reference_types@.len() == 0
    &&& r.history_limit.is_none()
    &&& r.history_retention_secs.is_none()
    &&& r.nick_len.is_none() && r.channel_len.is_none() && r.topic_len.is_none()
    &&& r.away_len.is_none() && r.kick_len.is_none() && r.monitor_limit.is_none()
    &&& r.watch_limit.is_none() && r.silence_limit.is_none() && r.line_len.is_none()
    &&& !r.whox && !r.safelist && !r.utf8_only && !r.account_required
    &&& r.elist@.len() == 0
    &&& r.client_tag_deny.is_none() && r.bot_mode.is_none() && r.except_mode.is_none()
    &&& r.invex_mode.is_none() && r.extban.is_none() && r.network_name.is_none()
    &&& r.multiline_max_bytes.is_none() && r.multiline_max_lines.is_none()
}

impl Default for NetworkSupport {
    fn default() -> (r: Self)
        ensures
            is_default_support(r),
    {
        let ct = vec!['#', '&', '+', '!'];
        let up = vec!['~', '&', '@', '%', '+'];
        let pm = vec!['q', 'a', 'o', 'h', 'v'];
        let ca = vec!['b', 'e', 'I'];
        let cb = vec!['k'];
        let cc = vec!['l'];
        let sp = vec!['@', '%', '+'];
        let r = NetworkSupport {
            isupport: StringHashMap::new(),
            case_mapping: CaseMapping::Rfc1459,
            channel_types: string_from_chars(&ct),
            user_prefixes: string_from_chars(&up),
            prefix_modes: string_from_chars(&pm),
            chanmodes_a: string_from_chars(&ca),
            chanmodes_b: string_from_chars(&cb),
            chanmodes_c: string_from_chars(&cc),
            status_prefixes: string_from_chars(&sp),
            history_reference_types: String::new(),
            history_limit: None,
            history_retention_secs: None,
            nick_len: None,
            channel_len: None,
            topic_len: None,
            away_len: None,
            kick_len: None,
            monitor_limit: None,
            watch_limit: None,
            silence_limit: None,
            whox: false,
            elist: String::new(),
            safelist: false,
            line_len: None,
            client_tag_deny: None,
            bot_mode: None,
            except_mode: None,
            invex_mode: None,
            extban: None,
            network_name: None,
            utf8_only: false,
            account_required: false,
            multiline_max_bytes: None,
            multiline_max_lines: None,
        };
        assert(r.isupport@ =~= Map::<Seq<char>, Option<String>>::empty());
        assert(r.channel_types@ =~= seq!['#', '&', '+', '!']);
        assert(r.user_prefixes@ =~= seq!['~', '&', '@', '%', '+']);
        assert(r.prefix_modes@ =~= seq!['q', 'a', 'o', 'h', 'v']);
        assert(r.chanmodes_a@ =~= seq!['b', 'e', 'I']);
        assert(r.chanmodes_b@ =~= seq!['k']);
        assert(r.chanmodes_c@ =~= seq!['l']);
        assert(r.status_prefixes@ =~= seq!['@', '%', '+']);
        r
    }
}

/// Whether `name` is a channel under the advertised channel types: its
/// first character is one of them.
pub open spec fn spec_is_channel(channel_types: Seq<char>, name: Seq<char>) -> bool {
    name.len() > 0 && has_char(channel_types, name[0])
}

/// The key of an identifier: under `Utf8Rfc8265` a leading channel-type
/// character is kept and only the rest is mapped.
pub open spec fn spec_network_canonicalize(m: CaseMapping, channel_types: Seq<char>, s: Seq<char>) -> Seq<char> {
    if m == CaseMapping::Utf8Rfc8265 && spec_is_channel(channel_types, s) {
        seq![s[0]] + spec_canonicalize(m, s.subrange(1, s.len() as int))
    } else {
        spec_canonicalize(m, s)
    }
}

/// Number of leading characters of `token` that are status prefixes.
pub open spec fn prefix_run(token: Seq<char>, prefixes: Seq<char>, i: int) -> int
    decreases token.len() - i,
{
    if i < 0 || i >= token.len() || !has_char(prefixes, token[i]) {
        i
    } else {
        prefix_run(token, prefixes, i + 1)
    }
}

/// The mode letters of the first `n` prefix characters of `token`, in order
/// and without repeats; a prefix with no corresponding letter adds none.
pub open spec fn prefix_letters(token: Seq<char>, prefixes: Seq<char>, letters: Seq<char>, n: int) -> Seq<char>
    decreases n,
{
    if n <= 0 || n > token.len() {
        Seq::empty()
    } else {
        let acc = prefix_letters(token, prefixes, letters, n - 1);
        match find_from(prefixes, token[n - 1], 0) {
            Some(idx) => if idx < letters.len() && !has_char(acc, letters[idx]) {
                acc.push(letters[idx])
            } else {
                acc
            },
            None => acc,
        }
    }
}

/// Length of the run of leading characters of `v` that occur in `prefixes`.
pub(crate) fn prefix_run_exec(v: &Vec<char>, prefixes: &Vec<char>) -> (r: usize)
    ensures
        r == prefix_run(v@, prefixes@, 0),
        r <= v.len(),
{
    let mut i: usize = 0;
    while i < v.len() && contains_char(prefixes, v[i])
        invariant
            i <= v.len(),
            prefix_run(v@, prefixes@, 0) == prefix_run(v@, prefixes@, i as int),
        decreases v.len() - i,
    {
        i += 1;
    }
    i
}

pub proof fn lemma_prefix_run(token: Seq<char>, prefixes: Seq<char>, i: int)
    requires
        0 <= i <= token.len(),
    ensures
        i <= prefix_run(token, prefixes, i) <= token.len(),
        forall|k: int| i <= k < prefix_run(token, prefixes, i) ==> has_char(prefixes, #[trigger] token[k]),
        prefix_run(token, prefixes, i) < token.len() ==> !has_char(prefixes, token[prefix_run(token, prefixes, i)]),
    decreases token.len() - i,
{
    if i < token.len() && has_char(prefixes, token[i]) {
        lemma_prefix_run(token, prefixes, i + 1);
    }
}

impl NetworkSupport {
    /// Whether the server advertised the ISUPPORT token `name` (looked up by
    /// its ASCII upper-case form).
    pub fn has_isupport(&self, name: &str) -> (r: bool)
        ensures
            r == self.isupport@.contains_key(ascii_upper_seq(name@)),
    {
        let v = chars_of(name);
        let key = string_from_chars(&ascii_upper_range(&v, 0, v.len()));
        assert(v@.subrange(0, v@.len() as int) =~= v@);
        self.isupport.contains_key(key.as_str())
    }

    /// The key of an identifier under the negotiated case mapping.
    pub fn canonicalize(&self, value: &str) -> (r: String)
        ensures
            r@ == spec_network_canonicalize(self.case_mapping, self.channel_types@, value@),
    {
        if self.case_mapping == CaseMapping::Utf8Rfc8265 && self.is_channel(value) {
            let v = chars_of(value);
            let rest = string_from_range(&v, 1, v.len());
            let mut out = String::new();
            push_char(&mut out, v[0]);
            let mapped = self.case_mapping.canonicalize(rest.as_str());
            push_str(&mut out, mapped.as_str());
            return out;
        }
        self.case_mapping.canonicalize(value)
    }

    /// Whether two identifiers are equal under the negotiated case mapping.
    pub fn identifiers_equal(&self, left: &str, right: &str) -> (r: bool)
        ensures
            r == (spec_network_canonicalize(self.case_mapping, self.channel_types@, left@)
                == spec_network_canonicalize(self.case_mapping, self.channel_types@, right@)),
    {
        let a = self.canonicalize(left);
        let b = self.canonicalize(right);
        chars_eq(&chars_of(a.as_str()), &chars_of(b.as_str()))
    }

    /// Whether `name` starts with an advertised channel type.
    pub fn is_channel(&self, name: &str) -> (r: bool)
        ensures
            r == spec_is_channel(self.channel_types@, name@),
    {
        let v = chars_of(name);
        if v.len() == 0 {
            return false;
        }
        let types = chars_of(self.channel_types.as_str());
        crate::text::contains_char(&types, v[0])
    }

    /// Split all advertised status prefixes from a NAMES token. With the
    /// IRCv3 multi-prefix capability a user can carry several prefixes (for
    /// example `@+alice`), all of which must survive later MODE changes.
    pub fn parse_prefixed_nick<'a>(&self, token: &'a str) -> (r: (&'a str, Vec<char>))
        ensures
            r.0@ == token@.subrange(prefix_run(token@, self.user_prefixes@, 0), token@.len() as int),
            r.1@ == prefix_letters(token@, self.user_prefixes@, self.prefix_modes@,
                prefix_run(token@, self.user_prefixes@, 0)),
    {
        let v = chars_of(token);
        let prefixes = chars_of(self.user_prefixes.as_str());
        let letters = chars_of(self.prefix_modes.as_str());
        let mut end: usize = 0;
        let mut modes: Vec<char> = Vec::new();
        while end < v.len()
            invariant
                end <= v.len(),
                v@ == token@,
                prefixes@ == self.user_prefixes@,
                letters@ == self.prefix_modes@,
                prefix_run(token@, prefixes@, 0) == prefix_run(token@, prefixes@, end as int),
                modes@ == prefix_letters(token@, prefixes@, letters@, end as int),
            ensures
                end <= v.len(),
                prefix_run(token@, prefixes@, 0) == end,
                modes@ == prefix_letters(token@, prefixes@, letters@, end as int),
            decreases v.len() - end,
        {
            let c = v[end];
            proof {
                lemma_find_from(prefixes@, c, 0);
                crate::text::lemma_has_char_find(prefixes@, c);
            }
            match find_char(&prefixes, c, 0) {
                None => {
                    proof {
                        assert(!has_char(prefixes@, v@[end as int]));
                        assert(prefix_run(token@, prefixes@, end as int) == end);
                    }
                    break;
                }
                Some(idx) => {
                    if idx < letters.len() && !crate::text::contains_char(&modes, letters[idx]) {
                        modes.push(letters[idx]);
                    }
                    end += 1;
                }
            }
        }
        (token.substring_char(end, v.len()), modes)
    }
}


/// The part of `NetworkSupport` that ISUPPORT tokens update.
pub struct SupportState {
    pub case_mapping: CaseMapping,
    pub channel_types: Seq<char>,
    pub user_prefixes: Seq<char>,
    pub prefix_modes: Seq<char>,
    pub chanmodes_a: Seq<char>,
    pub chanmodes_b: Seq<char>,
    pub chanmodes_c: Seq<char>,
    pub status_prefixes: Seq<char>,
    pub history_reference_types: Seq<char>,
    pub history_limit: Option<usize>,
    pub history_retention_secs: Option<u64>,
    pub nick_len: Option<usize>,
    pub channel_len: Option<usize>,
    pub topic_len: Option<usize>,
    pub away_len: Option<usize>,
    pub kick_len: Option<usize>,
    pub monitor_limit: Option<usize>,
    pub utf8_only: bool,
    pub account_required: bool,
}

/// `str::parse::<usize>` of a token value.
pub open spec fn parse_usize(v: Seq<char>) -> Option<usize> {
    match parse_unsigned(v, usize::MAX as nat) {
        Some(n) => Some(n as usize),
        None => None,
    }
}

/// `str::parse::<u64>` of a token value.
pub open spec fn parse_u64(v: Seq<char>) -> Option<u64> {
    match parse_unsigned(v, u64::MAX as nat) {
        Some(n) => Some(n as u64),
        None => None,
    }
}

/// `s` without the literal prefix `p`, if it has it.
pub open spec fn strip_lit(s: Seq<char>, p: Seq<char>) -> Option<Seq<char>> {
    if starts_with(s, p) {
        Some(s.subrange(p.len() as int, s.len() as int))
    } else {
        None
    }
}

/// The comma positions needed by `CHANMODES=A,B,C,D`: the first three commas.
pub open spec fn comma3(v: Seq<char>) -> Option<(int, int, int)> {
    match find_from(v, ',', 0) {
        None => None,
        Some(c1) => match find_from(v, ',', c1 + 1) {
            None => None,
            Some(c2) => match find_from(v, ',', c2 + 1) {
                None => None,
                Some(c3) => Some((c1, c2, c3)),
            },
        },
    }
}

/// The effect of one ISUPPORT token.
pub open spec fn token_effect(st: SupportState, t: Seq<char>) -> SupportState {
    if let Some(v) = strip_lit(t, "CHANTYPES="@) {
        if v.len() > 0 { SupportState { channel_types: v, ..st } } else { st }
    } else if let Some(v) = strip_lit(t, "CASEMAPPING="@) {
        if eq_ignore_ascii_case(v, "ascii"@) {
            SupportState { case_mapping: CaseMapping::Ascii, ..st }
        } else if eq_ignore_ascii_case(v, "strict-rfc1459"@) {
            SupportState { case_mapping: CaseMapping::StrictRfc1459, ..st }
        } else if eq_ignore_ascii_case(v, "rfc1459"@) {
            SupportState { case_mapping: CaseMapping::Rfc1459, ..st }
        } else {
            st
        }
    } else {
        token_effect_modes(st, t)
    }
}

/// `PREFIX=(modes)symbols` and `CHANMODES=A,B,C,D`, then the other tokens.
pub open spec fn token_effect_modes(st: SupportState, t: Seq<char>) -> SupportState {
    if let Some(v) = strip_lit(t, "PREFIX="@) {
        if v.len() > 0 && v[0] == '(' {
            match find_from(v, ')', 1) {
                Some(k) => {
                    let letters = v.subrange(1, k);
                    let symbols = v.subrange(k + 1, v.len() as int);
                    if symbols.len() > 0 && letters.len() == symbols.len() {
                        SupportState { prefix_modes: letters, user_prefixes: symbols, ..st }
                    } else {
                        st
                    }
                },
                None => st,
            }
        } else {
            st
        }
    } else if let Some(v) = strip_lit(t, "CHANMODES="@) {
        match comma3(v) {
            Some((c1, c2, c3)) => SupportState {
                chanmodes_a: v.subrange(0, c1),
                chanmodes_b: v.subrange(c1 + 1, c2),
                chanmodes_c: v.subrange(c2 + 1, c3),
                ..st
            },
            None => st,
        }
    } else {
        token_effect_history(st, t)
    }
}

/// `STATUSMSG`, `CHATHISTORY`, `MSGREFTYPES` and the history retention
/// token, then the length limits and flags.
pub open spec fn token_effect_history(st: SupportState, t: Seq<char>) -> SupportState {
    if let Some(v) = strip_lit(t, "STATUSMSG="@) {
        SupportState { status_prefixes: v, ..st }
    } else if let Some(v) = strip_lit(t, "CHATHISTORY="@) {
        match parse_usize(v) {
            Some(n) => if n > 0 { SupportState { history_limit: Some(n), ..st } } else { st },
            None => st,
        }
    } else if let Some(v) = strip_lit(t, "MSGREFTYPES="@) {
        SupportState { history_reference_types: v, ..st }
    } else if let Some(v) = strip_lit(t, "evilnet/CHATHISTORYRETENTION="@) {
        SupportState { history_retention_secs: parse_u64(v), ..st }
    } else {
        token_effect_limits(st, t)
    }
}

/// The length limits (an unparsable value clears the limit) and the
/// `UTF8ONLY` and `draft/ACCOUNTREQUIRED` flags; other tokens change nothing.
pub open spec fn token_effect_limits(st: SupportState, t: Seq<char>) -> SupportState {
    if let Some(v) = strip_lit(t, "NICKLEN="@) {
        SupportState { nick_len: parse_usize(v), ..st }
    } else if let Some(v) = strip_lit(t, "CHANNELLEN="@) {
        SupportState { channel_len: parse_usize(v), ..st }
    } else if let Some(v) = strip_lit(t, "TOPICLEN="@) {
        SupportState { topic_len: parse_usize(v), ..st }
    } else if let Some(v) = strip_lit(t, "AWAYLEN="@) {
        SupportState { away_len: parse_usize(v), ..st }
    } else if let Some(v) = strip_lit(t, "KICKLEN="@) {
        SupportState { kick_len: parse_usize(v), ..st }
    } else if let Some(v) = strip_lit(t, "MONITOR="@) {
        SupportState { monitor_limit: parse_usize(v), ..st }
    } else if eq_ignore_ascii_case(t, "UTF8ONLY"@) {
        SupportState { utf8_only: true, ..st }
    } else if eq_ignore_ascii_case(t, "draft/ACCOUNTREQUIRED"@) {
        SupportState { account_required: true, ..st }
    } else {
        st
    }
}

/// The effect of the tokens `toks[i..]` of an RPL_ISUPPORT reply: tokens
/// apply in order and a token starting with `:` (the trailing text) ends
/// the list.
pub open spec fn apply_tokens(st: SupportState, toks: Seq<Seq<char>>, i: int) -> SupportState
    decreases toks.len() - i,
{
    if i < 0 || i >= toks.len() {
        st
    } else if toks[i].len() > 0 && toks[i][0] == ':' {
        st
    } else {
        apply_tokens(token_effect(st, toks[i]), toks, i + 1)
    }
}

/// `CHANMODES=A,B,C,D` sets the list, parameter-always, parameter-when-set
/// groups to the first, second and third comma-separated groups of the
/// value, in that order; the fourth group (modes without a parameter) is
/// not kept. As the only token of a 005 reply (after the nick) it has the
/// same effect.
pub proof fn lemma_chanmodes_groups(st: SupportState, nick: Seq<char>, a: Seq<char>, b: Seq<char>, c: Seq<char>, d: Seq<char>)
    requires
        !a.contains(','),
        !b.contains(','),
        !c.contains(','),
    ensures
        ({
            let t = "CHANMODES="@ + a + seq![','] + b + seq![','] + c + seq![','] + d;
            let r = apply_tokens(st, seq![nick, t], 1);
            &&& token_effect(st, t).chanmodes_a == a
            &&& token_effect(st, t).chanmodes_b == b
            &&& token_effect(st, t).chanmodes_c == c
            &&& r.chanmodes_a == a
            &&& r.chanmodes_b == b
            &&& r.chanmodes_c == c
            &&& r.channel_types == st.channel_types
            &&& r.prefix_modes == st.prefix_modes
        }),
{
    reveal_strlit("CHANMODES=");
    reveal_strlit("CHANTYPES=");
    reveal_strlit("CASEMAPPING=");
    reveal_strlit("PREFIX=");
    let p = "CHANMODES="@;
    let v = a + seq![','] + b + seq![','] + c + seq![','] + d;
    let t = p + v;
    assert(t =~= "CHANMODES="@ + a + seq![','] + b + seq![','] + c + seq![','] + d);
    assert(t.subrange(0, 10) =~= p);
    assert(strip_lit(t, p) == Some(v)) by {
        assert(t.subrange(10, t.len() as int) =~= v);
    }
    assert(t[4] == 'M');
    assert(t[1] == 'H');
    assert(t[0] == 'C');
    assert(!starts_with(t, "CHANTYPES="@)) by {
        if starts_with(t, "CHANTYPES="@) {
            assert(t.subrange(0, 10)[4] == "CHANTYPES="@[4]);
        }
    }
    assert(!starts_with(t, "CASEMAPPING="@)) by {
        if starts_with(t, "CASEMAPPING="@) {
            assert(t.subrange(0, 12)[1] == "CASEMAPPING="@[1]);
        }
    }
    assert(!starts_with(t, "PREFIX="@)) by {
        if starts_with(t, "PREFIX="@) {
            assert(t.subrange(0, 7)[0] == "PREFIX="@[0]);
        }
    }
    let c1 = a.len() as int;
    let c2 = c1 + 1 + b.len();
    let c3 = c2 + 1 + c.len();
    assert forall|m: int| 0 <= m < c1 implies v[m] != ',' by {
        assert(v[m] == a[m]);
    }
    assert forall|m: int| c1 + 1 <= m < c2 implies v[m] != ',' by {
        assert(v[m] == b[m - c1 - 1]);
    }
    assert forall|m: int| c2 + 1 <= m < c3 implies v[m] != ',' by {
        assert(v[m] == c[m - c2 - 1]);
    }
    lemma_find_first(v, ',', 0, c1);
    lemma_find_first(v, ',', c1 + 1, c2);
    lemma_find_first(v, ',', c2 + 1, c3);
    assert(comma3(v) == Some((c1, c2, c3)));
    assert(v.subrange(0, c1) =~= a);
    assert(v.subrange(c1 + 1, c2) =~= b);
    assert(v.subrange(c2 + 1, c3) =~= c);
    let toks = seq![nick, t];
    assert(toks[1] == t);
    assert(apply_tokens(st, toks, 1) == apply_tokens(token_effect(st, t), toks, 2));
}

impl NetworkSupport {
    pub open spec fn state(&self) -> SupportState {
        SupportState {
            case_mapping: self.case_mapping,
            channel_types: self.channel_types@,
            user_prefixes: self.user_prefixes@,
            prefix_modes: self.prefix_modes@,
            chanmodes_a: self.chanmodes_a@,
            chanmodes_b: self.chanmodes_b@,
            chanmodes_c: self.chanmodes_c@,
            status_prefixes: self.status_prefixes@,
            history_reference_types: self.history_reference_types@,
            history_limit: self.history_limit,
            history_retention_secs: self.history_retention_secs,
            nick_len: self.nick_len,
            channel_len: self.channel_len,
            topic_len: self.topic_len,
            away_len: self.away_len,
            kick_len: self.kick_len,
            monitor_limit: self.monitor_limit,
            utf8_only: self.utf8_only,
            account_required: self.account_required,
        }
    }

    /// The fields that ISUPPORT tokens do not touch.
    pub open spec fn untouched_by_tokens(&self, other: &NetworkSupport) -> bool {
        &&& self.isupport@ == other.isupport@
        &&& self.watch_limit == other.watch_limit
        &&& self.silence_limit == other.silence_limit
        &&& self.whox == other.whox
        &&& self.elist@ == other.elist@
        &&& self.safelist == other.safelist
        &&& self.line_len == other.line_len
        &&& self.client_tag_deny == other.client_tag_deny
        &&& self.bot_mode == other.bot_mode
        &&& self.except_mode == other.except_mode
        &&& self.invex_mode == other.invex_mode
        &&& self.extban == other.extban
        &&& self.network_name == other.network_name
        &&& self.multiline_max_bytes == other.multiline_max_bytes
        &&& self.multiline_max_lines == other.multiline_max_lines
    }

    /// Apply the tokens of an RPL_ISUPPORT (005) reply; `params[0]` is our
    /// nick. Returns whether the case mapping changed (callers then re-key
    /// their identifier state).
    pub fn apply_isupport_tokens(&mut self, params: &[String]) -> (changed: bool)
        ensures
            final(self).state() == apply_tokens(old(self).state(), params@.map_values(|p: String| p@), 1),
            final(self).untouched_by_tokens(old(self)),
            changed == (final(self).case_mapping != old(self).case_mapping),
    {
        let previous = self.case_mapping;
        let ghost toks = params@.map_values(|p: String| p@);
        let mut i: usize = 1;
        while i < params.len()
            invariant
                1 <= i,
                toks == params@.map_values(|p: String| p@),
                apply_tokens(old(self).state(), toks, 1) == apply_tokens(self.state(), toks, i as int),
                self.untouched_by_tokens(old(self)),
            ensures
                apply_tokens(old(self).state(), toks, 1) == self.state(),
                self.untouched_by_tokens(old(self)),
            decreases params.len() - i,
        {
            let t = chars_of(params[i].as_str());
            assert(t@ == toks[i as int]);
            if t.len() > 0 && t[0] == ':' {
                break;
            }
            self.apply_token(&t);
            i += 1;
        }
        self.case_mapping != previous
    }

    fn set_from(&mut self, t: &Vec<char>, from: usize, which: u8)
        requires
            from <= t.len(),
        ensures
            which == 0 ==> final(self).state() == (SupportState { status_prefixes: t@.subrange(from as int, t@.len() as int), ..old(self).state() }),
            which == 1 ==> final(self).state() == (SupportState { history_reference_types: t@.subrange(from as int, t@.len() as int), ..old(self).state() }),
            which == 2 ==> final(self).state() == (SupportState { channel_types: t@.subrange(from as int, t@.len() as int), ..old(self).state() }),
            which > 2 ==> final(self).state() == old(self).state(),
            final(self).untouched_by_tokens(old(self)),
    {
        let v = string_from_range(t, from, t.len());
        if which == 0 {
            self.status_prefixes = v;
        } else if which == 1 {
            self.history_reference_types = v;
        } else if which == 2 {
            self.channel_types = v;
        }
    }

    fn apply_token(&mut self, t: &Vec<char>)
        ensures
            final(self).state() == token_effect(old(self).state(), t@),
            final(self).untouched_by_tokens(old(self)),
    {
        proof {
            reveal_strlit("CHANTYPES=");
            reveal_strlit("CASEMAPPING=");
            reveal_strlit("ascii");
            reveal_strlit("strict-rfc1459");
            reveal_strlit("rfc1459");
        }
        let n = t.len();
        if let Some(at) = strip_lit_exec(t, "CHANTYPES=") {
            if at < n {
                self.set_from(t, at, 2);
            }
        } else if let Some(at) = strip_lit_exec(t, "CASEMAPPING=") {
            if range_eq_ignore_ascii_case(t, at, n, &chars_of("ascii")) {
                self.case_mapping = CaseMapping::Ascii;
            } else if range_eq_ignore_ascii_case(t, at, n, &chars_of("strict-rfc1459")) {
                self.case_mapping = CaseMapping::StrictRfc1459;
            } else if range_eq_ignore_ascii_case(t, at, n, &chars_of("rfc1459")) {
                self.case_mapping = CaseMapping::Rfc1459;
            }
        } else {
            self.apply_token_modes(t);
        }
    }

    fn apply_token_modes(&mut self, t: &Vec<char>)
        ensures
            final(self).state() == token_effect_modes(old(self).state(), t@),
            final(self).untouched_by_tokens(old(self)),
    {
        proof {
            reveal_strlit("PREFIX=");
            reveal_strlit("CHANMODES=");
        }
        let n = t.len();
        if let Some(at) = strip_lit_exec(t, "PREFIX=") {
            let ghost v = t@.subrange(at as int, n as int);
            if at < n && t[at] == '(' {
                proof {
                    lemma_find_from(v, ')', 1);
                }
                match find_char(t, ')', at + 1) {
                    Some(k) => {
                        proof {
                            lemma_find_from(t@, ')', at + 1);
                            lemma_find_shift(t@, ')', at as int, at + 1);
                        }
                        if k + 1 < n && k - (at + 1) == n - (k + 1) {
                            self.prefix_modes = string_from_range(t, at + 1, k);
                            self.user_prefixes = string_from_range(t, k + 1, n);
                            assert(v.subrange(1, k - at) =~= t@.subrange(at + 1, k as int));
                            assert(v.subrange(k - at + 1, v.len() as int) =~= t@.subrange(k + 1, n as int));
                        }
                    }
                    None => {
                        proof {
                            lemma_find_shift(t@, ')', at as int, at + 1);
                        }
                    }
                }
            }
        } else if let Some(at) = strip_lit_exec(t, "CHANMODES=") {
            let ghost v = t@.subrange(at as int, n as int);
            proof {
                lemma_find_shift(t@, ',', at as int, at as int);
            }
            if let Some(c1) = find_char(t, ',', at) {
                proof {
                    lemma_find_from(t@, ',', at as int);
                    lemma_find_shift(t@, ',', at as int, c1 + 1);
                }
                if let Some(c2) = find_char(t, ',', c1 + 1) {
                    proof {
                        lemma_find_from(t@, ',', c1 + 1);
                        lemma_find_shift(t@, ',', at as int, c2 + 1);
                    }
                    if let Some(c3) = find_char(t, ',', c2 + 1) {
                        proof {
                            lemma_find_from(t@, ',', c2 + 1);
                        }
                        self.chanmodes_a = string_from_range(t, at, c1);
                        self.chanmodes_b = string_from_range(t, c1 + 1, c2);
                        self.chanmodes_c = string_from_range(t, c2 + 1, c3);
                        assert(v.subrange(0, c1 - at) =~= t@.subrange(at as int, c1 as int));
                        assert(v.subrange(c1 - at + 1, c2 - at) =~= t@.subrange(c1 + 1, c2 as int));
                        assert(v.subrange(c2 - at + 1, c3 - at) =~= t@.subrange(c2 + 1, c3 as int));
                    }
                }
            }
        } else {
            self.apply_token_history(t);
        }
    }

    fn apply_token_history(&mut self, t: &Vec<char>)
        ensures
            final(self).state() == token_effect_history(old(self).state(), t@),
            final(self).untouched_by_tokens(old(self)),
    {
        proof {
            reveal_strlit("STATUSMSG=");
            reveal_strlit("CHATHISTORY=");
            reveal_strlit("MSGREFTYPES=");
            reveal_strlit("evilnet/CHATHISTORYRETENTION=");
        }
        let n = t.len();
        if let Some(at) = strip_lit_exec(t, "STATUSMSG=") {
            self.set_from(t, at, 0);
        } else if let Some(at) = strip_lit_exec(t, "CHATHISTORY=") {
            if let Some(limit) = parse_unsigned_range(t, at, n, usize::MAX as u64) {
                if limit > 0 {
                    self.history_limit = Some(limit as usize);
                }
            }
        } else if let Some(at) = strip_lit_exec(t, "MSGREFTYPES=") {
            self.set_from(t, at, 1);
        } else if let Some(at) = strip_lit_exec(t, "evilnet/CHATHISTORYRETENTION=") {
            self.history_retention_secs = parse_unsigned_range(t, at, n, u64::MAX);
        } else {
            self.apply_token_limits(t);
        }
    }

    fn apply_token_limits(&mut self, t: &Vec<char>)
        ensures
            final(self).state() == token_effect_limits(old(self).state(), t@),
            final(self).untouched_by_tokens(old(self)),
    {
        proof {
            reveal_strlit("NICKLEN=");
            reveal_strlit("CHANNELLEN=");
            reveal_strlit("TOPICLEN=");
            reveal_strlit("AWAYLEN=");
            reveal_strlit("KICKLEN=");
            reveal_strlit("MONITOR=");
            reveal_strlit("UTF8ONLY");
            reveal_strlit("draft/ACCOUNTREQUIRED");
        }
        let n = t.len();
        if let Some(at) = strip_lit_exec(t, "NICKLEN=") {
            self.nick_len = opt_usize(parse_unsigned_range(t, at, n, usize::MAX as u64));
        } else if let Some(at) = strip_lit_exec(t, "CHANNELLEN=") {
            self.channel_len = opt_usize(parse_unsigned_range(t, at, n, usize::MAX as u64));
        } else if let Some(at) = strip_lit_exec(t, "TOPICLEN=") {
            self.topic_len = opt_usize(parse_unsigned_range(t, at, n, usize::MAX as u64));
        } else if let Some(at) = strip_lit_exec(t, "AWAYLEN=") {
            self.away_len = opt_usize(parse_unsigned_range(t, at, n, usize::MAX as u64));
        } else if let Some(at) = strip_lit_exec(t, "KICKLEN=") {
            self.kick_len = opt_usize(parse_unsigned_range(t, at, n, usize::MAX as u64));
        } else if let Some(at) = strip_lit_exec(t, "MONITOR=") {
            self.monitor_limit = opt_usize(parse_unsigned_range(t, at, n, usize::MAX as u64));
        } else if range_eq_ignore_ascii_case(t, 0, n, &chars_of("UTF8ONLY")) {
            self.utf8_only = true;
        } else if range_eq_ignore_ascii_case(t, 0, n, &chars_of("draft/ACCOUNTREQUIRED")) {
            self.account_required = true;
        }
        proof {
            assert(t@.subrange(0, n as int) =~= t@);
        }
    }
}

fn opt_usize(v: Option<u64>) -> (r: Option<usize>)
    requires
        v matches Some(n) ==> n <= usize::MAX,
    ensures
        r == (match v { Some(n) => Some(n as usize), None => None::<usize> }),
{
    match v {
        Some(n) => Some(n as usize),
        None => None,
    }
}

/// Where the text after the literal prefix `p` starts in `t`, if `t` starts
/// with `p`.
pub(crate) fn strip_lit_exec(t: &Vec<char>, p: &str) -> (r: Option<usize>)
    ensures
        match r {
            Some(at) => at == p@.len() && at <= t@.len() && strip_lit(t@, p@) == Some(t@.subrange(at as int, t@.len() as int)),
            None => strip_lit(t@, p@).is_none(),
        },
{
    let w = chars_of(p);
    assert(t@.subrange(0, t@.len() as int) =~= t@);
    if starts_with_at(t, 0, &w) {
        Some(w.len())
    } else {
        None
    }
}

/// Searching a suffix of `s` from `at` finds the same character at the
/// shifted position.
proof fn lemma_find_shift(s: Seq<char>, c: char, at: int, from: int)
    requires
        0 <= at <= from,
        at <= s.len(),
    ensures
        match find_from(s, c, from) {
            Some(k) => find_from(s.subrange(at, s.len() as int), c, from - at) == Some(k - at),
            None => find_from(s.subrange(at, s.len() as int), c, from - at).is_none(),
        },
    decreases s.len() - from,
{
    if from < s.len() && s[from] != c {
        lemma_find_shift(s, c, at, from + 1);
    }
}

} // verus!

//! Chat log text: file-name components, the irssi-style log line format and
//! its parser, history selection and redaction.

use vstd::prelude::*;

use crate::commands::{before_char, split_on, trail_len, service_message_contains_credentials, spec_service_message_contains_credentials, strip_leading};
use crate::message::ChatMessage;
use crate::network::{lemma_prefix_run, prefix_run, prefix_run_exec};
use crate::numfmt::{dec, dec_pad, dec_space, hex_fixed, hex_fixed_chars, push_chars, push_dec, push_pad2, push_space2};
use crate::calendar::civil_from_days;
use crate::helpers::{days_to_ymd, month_abbrev, push_month_abbrev, unix_now_secs};
use crate::text::{
    ascii_upper_range, ascii_upper_seq, chars_eq, chars_of, find_char, find_from, has_char,
    is_digit, lemma_find_from, push_char, push_str, string_from_chars, string_from_range, sub_chars,
    to_string, trim, trim_range, trim_start, is_ws, is_whitespace, lemma_skip_ws, skip_ws, starts_with,
    lemma_find_absent, lemma_find_first, views,
};

verus! {

/// Characters that are not allowed in a portable file name.
pub open spec fn is_path_special(c: char) -> bool {
    c == '/' || c == '\\' || c == ':' || c == '*' || c == '?' || c == '"' || c == '<' || c == '>'
        || c == '|' || c == '\0'
}

/// `s` with every path-special character replaced by `_`.
pub open spec fn path_safe_chars(s: Seq<char>) -> Seq<char> {
    s.map_values(|c: char| if is_path_special(c) { '_' } else { c })
}

/// Whether every character of `s` is a dot.
pub open spec fn all_dots(s: Seq<char>) -> bool {
    forall|k: int| 0 <= k < s.len() ==> s[k] == '.'
}

/// Windows device names (CON, PRN, AUX, NUL, COM0-9, LPT0-9), upper-case.
pub open spec fn is_reserved_stem(up: Seq<char>) -> bool {
    up == "CON"@ || up == "PRN"@ || up == "AUX"@ || up == "NUL"@
        || (up.len() == 4 && (up.subrange(0, 3) == "COM"@ || up.subrange(0, 3) == "LPT"@) && is_digit(up[3]))
}

/// A file-name component for `name`: path-special characters become `_`,
/// surrounding whitespace and leading dots go, an empty or all-dot result is
/// `_`, and Windows device names (judged by the part before the first dot)
/// get a `_` prefix.
pub open spec fn spec_sanitize_filename(name: Seq<char>) -> Seq<char> {
    let t = trim(path_safe_chars(name));
    if t.len() == 0 || all_dots(t) {
        seq!['_']
    } else {
        let cleaned = strip_leading(t, seq!['.']);
        if cleaned.len() == 0 {
            seq!['_']
        } else if is_reserved_stem(ascii_upper_seq(before_char(cleaned, '.'))) {
            seq!['_'] + cleaned
        } else {
            cleaned
        }
    }
}

fn is_path_special_exec(c: char) -> (r: bool)
    ensures
        r == is_path_special(c),
{
    c == '/' || c == '\\' || c == ':' || c == '*' || c == '?' || c == '"' || c == '<' || c == '>'
        || c == '|' || c == '\0'
}

/// Sanitize a string for use as a file name (see `spec_sanitize_filename`).
pub fn sanitize_filename(name: &str) -> (r: String)
    ensures
        r@ == spec_sanitize_filename(name@),
{
    let v = chars_of(name);
    let mut mapped: Vec<char> = Vec::new();
    let mut i: usize = 0;
    while i < v.len()
        invariant
            i <= v.len(),
            mapped@ == path_safe_chars(v@.take(i as int)),
        decreases v.len() - i,
    {
        let c = if is_path_special_exec(v[i]) { '_' } else { v[i] };
        mapped.push(c);
        i += 1;
        assert(mapped@ =~= path_safe_chars(v@.take(i as int)));
    }
    assert(v@.take(v@.len() as int) =~= v@);
    let (a, b) = trim_range(&mapped, 0, mapped.len());
    assert(mapped@.subrange(0, mapped@.len() as int) =~= mapped@);
    let t = sub_chars(&mapped, a, b);
    let underscore = chars_of("_");
    proof {
        reveal_strlit("_");
        assert(underscore@ =~= seq!['_']);
    }
    let mut dots = true;
    let mut k: usize = 0;
    while k < t.len()
        invariant
            k <= t.len(),
            dots == forall|j: int| 0 <= j < k ==> t@[j] == '.',
        decreases t.len() - k,
    {
        if t[k] != '.' {
            dots = false;
        }
        k += 1;
    }
    if t.len() == 0 || dots {
        return string_from_chars(&underscore);
    }
    let dot = chars_of(".");
    proof {
        reveal_strlit(".");
        assert(dot@ =~= seq!['.']);
        lemma_prefix_run(t@, dot@, 0);
    }
    let start = prefix_run_exec(&t, &dot);
    let cleaned = sub_chars(&t, start, t.len());
    if cleaned.len() == 0 {
        return string_from_chars(&underscore);
    }
    proof {
        lemma_find_from(cleaned@, '.', 0);
    }
    let stem_end = match find_char(&cleaned, '.', 0) {
        Some(j) => j,
        None => cleaned.len(),
    };
    let up = ascii_upper_range(&cleaned, 0, stem_end);
    assert(cleaned@.subrange(0, cleaned@.len() as int) =~= cleaned@);
    let reserved = chars_eq(&up, &chars_of("CON")) || chars_eq(&up, &chars_of("PRN"))
        || chars_eq(&up, &chars_of("AUX")) || chars_eq(&up, &chars_of("NUL"))
        || (up.len() == 4 && (chars_eq(&sub_chars(&up, 0, 3), &chars_of("COM"))
            || chars_eq(&sub_chars(&up, 0, 3), &chars_of("LPT"))) && '0' <= up[3] && up[3] <= '9');
    if reserved {
        let mut r = string_from_chars(&underscore);
        push_chars(&mut r, &cleaned);
        r
    } else {
        string_from_chars(&cleaned)
    }
}

/// A sanitized file name is a single safe path component: never empty,
/// never starting with a dot (so never `.` or `..`), and free of path
/// separators and other characters file systems reject.
pub proof fn lemma_sanitize_filename_safe(name: Seq<char>)
    ensures
        spec_sanitize_filename(name).len() > 0,
        spec_sanitize_filename(name)[0] != '.',
        forall|k: int| 0 <= k < spec_sanitize_filename(name).len()
            ==> !is_path_special(#[trigger] spec_sanitize_filename(name)[k]),
{
    let m = path_safe_chars(name);
    let t = trim(m);
    crate::text::lemma_skip_ws(m, 0);
    let st = trim_start(m);
    crate::text::lemma_trim_end_len(st, st.len() as int);
    assert forall|k: int| 0 <= k < t.len() implies !is_path_special(#[trigger] t[k]) by {
        assert(t[k] == m[k + crate::text::skip_ws(m, 0)]);
    }
    if !(t.len() == 0 || all_dots(t)) {
        lemma_prefix_run(t, seq!['.'], 0);
        let p = prefix_run(t, seq!['.'], 0);
        let cleaned = strip_leading(t, seq!['.']);
        if cleaned.len() > 0 {
            assert(cleaned[0] == t[p]);
            assert(!has_char(seq!['.'], t[p]));
            assert(seq!['.'][0] == '.');
            assert forall|k: int| 0 <= k < cleaned.len() implies !is_path_special(#[trigger] cleaned[k]) by {
                assert(cleaned[k] == t[k + p]);
            }
            let r = spec_sanitize_filename(name);
            if is_reserved_stem(ascii_upper_seq(before_char(cleaned, '.'))) {
                assert forall|k: int| 0 <= k < r.len() implies !is_path_special(#[trigger] r[k]) by {
                    if k > 0 {
                        assert(r[k] == cleaned[k - 1]);
                    }
                }
            }
        }
    }
}

/// The FNV-1a hash (64-bit) of a byte string.
pub open spec fn fnv1a(bytes: Seq<u8>) -> u64
    decreases bytes.len(),
{
    if bytes.len() == 0 {
        0xcbf29ce484222325u64
    } else {
        let h = fnv1a(bytes.drop_last()) ^ (bytes.last() as u64);
        ((h as nat * 0x100000001b3nat) % 0x10000000000000000nat) as u64
    }
}

/// A portable, collision-resistant path component: the first 80 characters
/// of the sanitized name, `~`, and the 16-digit hex FNV-1a hash of the raw
/// name's UTF-8 bytes.
pub open spec fn spec_encoded_path_component(name: Seq<char>) -> Seq<char> {
    let readable = spec_sanitize_filename(name);
    let prefix = if readable.len() > 80 { readable.subrange(0, 80) } else { readable };
    prefix + seq!['~'] + hex_fixed(fnv1a(vstd::utf8::encode_utf8(name)) as nat, 16)
}

/// Return a portable, collision-resistant path component (see
/// `spec_encoded_path_component`). The hash is only a stable identifier
/// suffix, not a security measure.
pub fn encoded_path_component(name: &str) -> (r: String)
    ensures
        r@ == spec_encoded_path_component(name@),
{
    let bytes = name.as_bytes();
    let mut hash: u64 = 0xcbf29ce484222325;
    let mut i: usize = 0;
    while i < bytes.len()
        invariant
            i <= bytes.len(),
            bytes@ == vstd::utf8::encode_utf8(name@),
            hash == fnv1a(bytes@.take(i as int)),
        decreases bytes.len() - i,
    {
        proof {
            assert(bytes@.take(i as int + 1).drop_last() =~= bytes@.take(i as int));
        }
        hash = hash ^ (bytes[i] as u64);
        hash = hash.wrapping_mul(0x100000001b3);
        i += 1;
    }
    assert(bytes@.take(bytes@.len() as int) =~= bytes@);
    let readable = chars_of(sanitize_filename(name).as_str());
    let n = if readable.len() > 80 { 80 } else { readable.len() };
    let mut r = string_from_range(&readable, 0, n);
    assert(readable@.subrange(0, readable@.len() as int) =~= readable@);
    push_char(&mut r, '~');
    push_chars(&mut r, &hex_fixed_chars(hash, 16));
    r
}

/// `s` with CR and LF replaced by spaces.
pub open spec fn line_safe(s: Seq<char>) -> Seq<char> {
    s.map_values(|c: char| if c == '\r' || c == '\n' { ' ' } else { c })
}

/// Whether `s` holds no CR or LF.
pub open spec fn single_line(s: Seq<char>) -> bool {
    forall|k: int| 0 <= k < s.len() ==> s[k] != '\r' && s[k] != '\n'
}

/// Replace CR/LF so no field can inject forged lines into the log.
pub fn sanitize_log_field(s: &str) -> (r: String)
    ensures
        r@ == line_safe(s@),
        single_line(r@),
{
    let v = chars_of(s);
    let mut r = String::new();
    let mut i: usize = 0;
    while i < v.len()
        invariant
            i <= v.len(),
            r@ == line_safe(v@.take(i as int)),
        decreases v.len() - i,
    {
        let c = if v[i] == '\r' || v[i] == '\n' { ' ' } else { v[i] };
        push_char(&mut r, c);
        i += 1;
        assert(r@ =~= line_safe(v@.take(i as int)));
    }
    assert(v@.take(v@.len() as int) =~= v@);
    r
}

/// A timestamp as written to the log: surrounding brackets removed.
pub open spec fn log_time(ts: Seq<char>) -> Seq<char> {
    let a = strip_leading(ts, seq!['[']);
    a.subrange(0, trail_len(a, seq![']'], a.len() as int))
}

/// The irssi-style log line of a message: "TIME -!- text" (system),
/// "TIME * nick text" (action) or "TIME <nick> text", each field made
/// single-line.
pub open spec fn spec_format_log_line(m: ChatMessage) -> Seq<char> {
    let time = line_safe(log_time(m.timestamp@));
    let sender = line_safe(m.sender@);
    let content = line_safe(m.content@);
    if m.is_system {
        time + seq![' ', '-', '!', '-', ' '] + content
    } else if m.is_action {
        time + seq![' ', '*', ' '] + sender + seq![' '] + content
    } else {
        time + seq![' ', '<'] + sender + seq!['>', ' '] + content
    }
}

proof fn lemma_line_safe_single(s: Seq<char>)
    ensures
        single_line(line_safe(s)),
{
}

/// Format a message as a log line (see `spec_format_log_line`); the line
/// never contains CR or LF, so log lines cannot be forged.
pub fn format_log_line(msg: &ChatMessage) -> (r: String)
    ensures
        r@ == spec_format_log_line(*msg),
        single_line(r@),
{
    let tv = chars_of(msg.timestamp.as_str());
    let open = chars_of("[");
    let close = chars_of("]");
    proof {
        reveal_strlit("[");
        reveal_strlit("]");
        assert(open@ =~= seq!['[']);
        assert(close@ =~= seq![']']);
        lemma_prefix_run(tv@, open@, 0);
    }
    let a = prefix_run_exec(&tv, &open);
    let inner = sub_chars(&tv, a, tv.len());
    let mut b: usize = inner.len();
    while b > 0 && inner[b - 1] == ']'
        invariant
            b <= inner.len(),
            trail_len(inner@, seq![']'], inner@.len() as int) == trail_len(inner@, seq![']'], b as int),
        decreases b,
    {
        proof {
            assert(seq![']'][0] == ']');
        }
        b -= 1;
    }
    proof {
        if b > 0 {
            assert(!crate::text::has_char(seq![']'], inner@[b - 1]));
        }
    }
    let time_raw = string_from_range(&inner, 0, b);
    let time = sanitize_log_field(time_raw.as_str());
    let sender = sanitize_log_field(msg.sender.as_str());
    let content = sanitize_log_field(msg.content.as_str());
    let mut r = time;
    if msg.is_system {
        push_char(&mut r, ' ');
        push_char(&mut r, '-');
        push_char(&mut r, '!');
        push_char(&mut r, '-');
        push_char(&mut r, ' ');
        push_str(&mut r, content.as_str());
    } else if msg.is_action {
        push_char(&mut r, ' ');
        push_char(&mut r, '*');
        push_char(&mut r, ' ');
        push_str(&mut r, sender.as_str());
        push_char(&mut r, ' ');
        push_str(&mut r, content.as_str());
    } else {
        push_char(&mut r, ' ');
        push_char(&mut r, '<');
        push_str(&mut r, sender.as_str());
        push_char(&mut r, '>');
        push_char(&mut r, ' ');
        push_str(&mut r, content.as_str());
    }
    assert(r@ =~= spec_format_log_line(*msg));
    r
}

/// Split a log line into (timestamp, rest): the timestamp is the first
/// token, or, when that token is a date (a `-` but no `:`), the date, a
/// space and the next token; the rest then has its leading whitespace
/// trimmed. `None` when a needed space is missing.
pub open spec fn spec_split_timestamp(line: Seq<char>) -> Option<(Seq<char>, Seq<char>)> {
    match find_from(line, ' ', 0) {
        None => None,
        Some(k) => {
            let first = line.subrange(0, k);
            let after = line.subrange(k + 1, line.len() as int);
            if !has_char(first, ':') && has_char(first, '-') {
                match find_from(after, ' ', 0) {
                    None => None,
                    Some(j) => Some((first + seq![' '] + after.subrange(0, j),
                        trim_start(after.subrange(j + 1, after.len() as int)))),
                }
            } else {
                Some((first, after))
            }
        },
    }
}

/// Split a log line into its timestamp and the rest (see
/// `spec_split_timestamp`).
pub fn split_timestamp(line: &str) -> (r: Option<(String, &str)>)
    ensures
        spec_split_timestamp(line@) == match r {
            Some(t) => Some((t.0@, t.1@)),
            None => None,
        },
{
    let v = chars_of(line);
    proof {
        lemma_find_from(v@, ' ', 0);
    }
    let k = match find_char(&v, ' ', 0) {
        Some(k) => k,
        None => {
            return None;
        },
    };
    let first = sub_chars(&v, 0, k);
    if !crate::text::contains_char(&first, ':') && crate::text::contains_char(&first, '-') {
        let after = sub_chars(&v, k + 1, v.len());
        proof {
            lemma_find_from(after@, ' ', 0);
        }
        let j = match find_char(&after, ' ', 0) {
            Some(j) => j,
            None => {
                return None;
            },
        };
        let mut ts = string_from_chars(&first);
        push_char(&mut ts, ' ');
        push_chars(&mut ts, &sub_chars(&after, 0, j));
        let mut a: usize = k + 1 + j + 1;
        while a < v.len() && is_whitespace(v[a])
            invariant
                k + 1 + j + 1 <= a <= v.len(),
                after@ == v@.subrange(k + 1, v@.len() as int),
                skip_ws(after@.subrange(j + 1, after@.len() as int), 0)
                    == skip_ws(after@.subrange(j + 1, after@.len() as int), a - (k + 1 + j + 1)),
            decreases v.len() - a,
        {
            assert(after@.subrange(j + 1, after@.len() as int)[a - (k + 1 + j + 1)] == v@[a as int]);
            a += 1;
        }
        proof {
            let t = after@.subrange(j + 1, after@.len() as int);
            if a < v.len() {
                assert(t[a - (k + 1 + j + 1)] == v@[a as int]);
            }
            assert(trim_start(t) =~= v@.subrange(a as int, v@.len() as int));
        }
        return Some((ts, line.substring_char(a, v.len())));
    }
    Some((string_from_chars(&first), line.substring_char(k + 1, v.len())))
}

/// What `parse_log_line` reads from a line: timestamp (bracketed), sender,
/// content, whether an action, whether a system line.
pub open spec fn spec_parse_log_line(line: Seq<char>) -> Option<(Seq<char>, Seq<char>, Seq<char>, bool, bool)> {
    if starts_with(line, seq!['-', '-', '-']) {
        None
    } else {
        match spec_split_timestamp(line) {
            None => None,
            Some(p) => {
                let timestamp = seq!['['] + p.0 + seq![']'];
                let rest = p.1;
                if starts_with(rest, seq!['-', '!', '-', ' ']) {
                    Some((timestamp, seq!['*'], rest.subrange(4, rest.len() as int), false, true))
                } else if starts_with(rest, seq!['*', ' ']) {
                    let ar = rest.subrange(2, rest.len() as int);
                    match find_from(ar, ' ', 0) {
                        Some(j) => Some((timestamp, ar.subrange(0, j), ar.subrange(j + 1, ar.len() as int), true, false)),
                        None => None,
                    }
                } else if rest.len() > 0 && rest[0] == '<' {
                    match find_from(rest, '>', 0) {
                        Some(e) => Some((timestamp, rest.subrange(1, e), trim_start(rest.subrange(e + 1, rest.len() as int)), false, false)),
                        None => None,
                    }
                } else {
                    None
                }
            },
        }
    }
}

/// A message read back from the log: the parsed fields, no IRCv3 metadata,
/// not highlighted, loggable.
pub open spec fn is_parsed_message(m: ChatMessage, p: (Seq<char>, Seq<char>, Seq<char>, bool, bool)) -> bool {
    &&& m.timestamp@ == p.0
    &&& m.sender@ == p.1
    &&& m.content@ == p.2
    &&& m.is_action == p.3
    &&& m.is_system == p.4
    &&& m.server_time is None
    &&& m.msgid is None
    &&& m.account is None
    &&& m.oper is None
    &&& m.reply_to is None
    &&& !m.is_highlight
    &&& !m.no_log
}

fn logged_message(timestamp: String, sender: String, content: String, action: bool, system: bool) -> (m: ChatMessage)
    ensures
        is_parsed_message(m, (timestamp@, sender@, content@, action, system)),
{
    ChatMessage {
        timestamp,
        server_time: None,
        msgid: None,
        account: None,
        oper: None,
        reply_to: None,
        sender,
        content,
        is_action: action,
        is_system: system,
        is_highlight: false,
        no_log: false,
    }
}

/// Parse a log line back into a message (see `spec_parse_log_line`);
/// session markers (`---`) and malformed lines give `None`.
pub fn parse_log_line(line: &str) -> (r: Option<ChatMessage>)
    ensures
        match spec_parse_log_line(line@) {
            Some(p) => r.is_some() && is_parsed_message(r.unwrap(), p),
            None => r.is_none(),
        },
{
    let v = chars_of(line);
    if v.len() >= 3 && v[0] == '-' && v[1] == '-' && v[2] == '-' {
        assert(v@.subrange(0, 3) =~= seq!['-', '-', '-']);
        return None;
    }
    proof {
        if v@.len() >= 3 {
            assert(v@.subrange(0, 3) == seq!['-', '-', '-'] ==> v@[0] == '-' && v@[1] == '-' && v@[2] == '-');
        }
    }
    let (ts, rest) = match split_timestamp(line) {
        Some(p) => p,
        None => {
            return None;
        },
    };
    let mut timestamp = String::new();
    push_char(&mut timestamp, '[');
    push_str(&mut timestamp, ts.as_str());
    push_char(&mut timestamp, ']');
    assert(timestamp@ =~= seq!['['] + ts@ + seq![']']);
    let rv = chars_of(rest);
    if rv.len() >= 4 && rv[0] == '-' && rv[1] == '!' && rv[2] == '-' && rv[3] == ' ' {
        assert(rv@.subrange(0, 4) =~= seq!['-', '!', '-', ' ']);
        let content = string_from_range(&rv, 4, rv.len());
        proof {
            reveal_strlit("*");
            assert("*"@ =~= seq!['*']);
        }
        return Some(logged_message(timestamp, to_string("*"), content, false, true));
    }
    proof {
        reveal_strlit("*");
        if rv@.len() >= 4 {
            assert(rv@.subrange(0, 4) == seq!['-', '!', '-', ' '] ==> rv@[0] == '-' && rv@[1] == '!' && rv@[2] == '-' && rv@[3] == ' ');
        }
    }
    if rv.len() >= 2 && rv[0] == '*' && rv[1] == ' ' {
        assert(rv@.subrange(0, 2) =~= seq!['*', ' ']);
        let ar = sub_chars(&rv, 2, rv.len());
        proof {
            lemma_find_from(ar@, ' ', 0);
        }
        return match find_char(&ar, ' ', 0) {
            Some(j) => Some(logged_message(timestamp, string_from_range(&ar, 0, j), string_from_range(&ar, j + 1, ar.len()), true, false)),
            None => None,
        };
    }
    proof {
        if rv@.len() >= 2 {
            assert(rv@.subrange(0, 2) == seq!['*', ' '] ==> rv@[0] == '*' && rv@[1] == ' ');
        }
    }
    if rv.len() > 0 && rv[0] == '<' {
        proof {
            lemma_find_from(rv@, '>', 0);
        }
        return match find_char(&rv, '>', 0) {
            Some(e) => {
                let (a, b) = trim_range(&rv, e + 1, rv.len());
                proof {
                    crate::text::lemma_skip_ws(rv@.subrange(e + 1, rv@.len() as int), 0);
                }
                let mut s: usize = e + 1;
                while s < rv.len() && is_whitespace(rv[s])
                    invariant
                        e + 1 <= s <= rv.len(),
                        skip_ws(rv@.subrange(e + 1, rv@.len() as int), 0)
                            == skip_ws(rv@.subrange(e + 1, rv@.len() as int), s - (e + 1)),
                    decreases rv.len() - s,
                {
                    assert(rv@.subrange(e + 1, rv@.len() as int)[s - (e + 1)] == rv@[s as int]);
                    s += 1;
                }
                proof {
                    let t = rv@.subrange(e + 1, rv@.len() as int);
                    if s < rv.len() {
                        assert(t[s - (e + 1)] == rv@[s as int]);
                    }
                    assert(trim_start(t) =~= rv@.subrange(s as int, rv@.len() as int));
                }
                Some(logged_message(timestamp, string_from_range(&rv, 1, e), string_from_range(&rv, s, rv.len()), false, false))
            },
            None => None,
        };
    }
    None
}

/// Hide credential commands found in loaded history: their content is
/// replaced by a placeholder and they are kept out of logging and search.
pub fn redact_sensitive_history(channel: &str, messages: &mut Vec<ChatMessage>)
    ensures
        final(messages)@.len() == old(messages)@.len(),
        forall|i: int| 0 <= i < old(messages)@.len() ==> {
            let m = #[trigger] old(messages)@[i];
            let n = final(messages)@[i];
            if spec_service_message_contains_credentials(channel@, m.content@) {
                n.content@ == "<credential command redacted>"@ && n == (ChatMessage { content: n.content, no_log: true, ..m })
            } else {
                n == m
            }
        },
{
    let ghost start = messages@;
    let mut i: usize = 0;
    while i < messages.len()
        invariant
            i <= messages.len(),
            messages@.len() == start.len(),
            forall|j: int| i <= j < start.len() ==> #[trigger] messages@[j] == start[j],
            forall|j: int| 0 <= j < i ==> {
                let m = #[trigger] start[j];
                let n = messages@[j];
                if spec_service_message_contains_credentials(channel@, m.content@) {
                    n.content@ == "<credential command redacted>"@ && n == (ChatMessage { content: n.content, no_log: true, ..m })
                } else {
                    n == m
                }
            },
        decreases messages.len() - i,
    {
        if service_message_contains_credentials(channel, messages[i].content.as_str()) {
            let ghost before = messages@;
            let mut m = messages.remove(i);
            m.content = to_string("<credential command redacted>");
            m.no_log = true;
            messages.insert(i, m);
            assert(messages@ =~= before.update(i as int, m));
        }
        i += 1;
    }
}

/// A timestamp text that survives a trip through the log: single-line,
/// not itself bracketed at either end, not starting with `---`, and either
/// one token (containing `:` or no `-`) or a date token (with `-`, no `:`)
/// and a time token separated by one space.
pub open spec fn log_safe_stamp(t: Seq<char>) -> bool {
    &&& single_line(t)
    &&& !(t.len() > 0 && t[0] == '[')
    &&& !(t.len() > 0 && t[t.len() - 1] == ']')
    &&& !starts_with(t, seq!['-', '-', '-'])
    &&& match find_from(t, ' ', 0) {
        None => has_char(t, ':') || !has_char(t, '-'),
        Some(k) => !has_char(t.subrange(0, k), ':') && has_char(t.subrange(0, k), '-')
            && !has_char(t.subrange(k + 1, t.len() as int), ' '),
    }
}

/// A message the log keeps intact: a bracketed safe timestamp, single-line
/// fields, an action sender without spaces, a plain sender without `>` and
/// plain content not starting with whitespace.
pub open spec fn log_round_trips(m: ChatMessage, t: Seq<char>) -> bool {
    &&& m.timestamp@ == seq!['['] + t + seq![']']
    &&& log_safe_stamp(t)
    &&& single_line(m.content@)
    &&& if m.is_system {
        true
    } else if m.is_action {
        single_line(m.sender@) && !has_char(m.sender@, ' ')
    } else {
        single_line(m.sender@) && !has_char(m.sender@, '>') && (m.content@.len() == 0 || !is_ws(m.content@[0]))
    }
}

proof fn lemma_line_safe_id(s: Seq<char>)
    requires
        single_line(s),
    ensures
        line_safe(s) == s,
{
    assert(line_safe(s) =~= s);
}

proof fn lemma_log_time(t: Seq<char>)
    requires
        !(t.len() > 0 && t[0] == '['),
        !(t.len() > 0 && t[t.len() - 1] == ']'),
    ensures
        log_time(seq!['['] + t + seq![']']) == t,
{
    let ts = seq!['['] + t + seq![']'];
    assert(ts[0] == '[');
    assert(seq!['['][0] == '[');
    assert(crate::text::has_char(seq!['['], ts[0]));
    assert(!crate::text::has_char(seq!['['], ts[1])) by {
        if t.len() > 0 {
            assert(ts[1] == t[0]);
        } else {
            assert(ts[1] == ']');
        }
    }
    assert(prefix_run(ts, seq!['['], 1) == 1);
    assert(prefix_run(ts, seq!['['], 0) == 1);
    let a = strip_leading(ts, seq!['[']);
    assert(a =~= t + seq![']']);
    assert(seq![']'][0] == ']');
    assert(crate::text::has_char(seq![']'], a[a.len() - 1]));
    if t.len() > 0 {
        assert(a[t.len() - 1] == t[t.len() - 1]);
        assert(!crate::text::has_char(seq![']'], a[t.len() - 1]));
    }
    assert(trail_len(a, seq![']'], t.len() as int) == t.len());
    assert(trail_len(a, seq![']'], a.len() as int) == t.len());
    assert(log_time(ts) =~= t);
}

/// `split_timestamp` of a formatted line gives back the timestamp text and
/// the part after the space that follows it.
proof fn lemma_split_formatted(t: Seq<char>, x: Seq<char>)
    requires
        log_safe_stamp(t),
        x.len() > 0,
        x[0] != ' ' && !is_ws(x[0]),
    ensures
        spec_split_timestamp(t + seq![' '] + x) == Some((t, x)),
{
    let l = t + seq![' '] + x;
    lemma_find_from(t, ' ', 0);
    match find_from(t, ' ', 0) {
        None => {
            lemma_find_first(l, ' ', 0, t.len() as int);
            assert(l.subrange(0, t.len() as int) =~= t);
            assert(l.subrange(t.len() as int + 1, l.len() as int) =~= x);
        },
        Some(k) => {
            lemma_find_first(l, ' ', 0, k);
            let d = t.subrange(0, k);
            let h = t.subrange(k + 1, t.len() as int);
            assert(l.subrange(0, k) =~= d);
            let after = l.subrange(k + 1, l.len() as int);
            assert(after =~= h + seq![' '] + x);
            assert forall|m: int| 0 <= m < h.len() implies after[m] != ' ' by {
                if after[m] == ' ' {
                    assert(h[m] == ' ');
                    assert(crate::text::has_char(h, ' '));
                }
            }
            lemma_find_first(after, ' ', 0, h.len() as int);
            assert(after.subrange(0, h.len() as int) =~= h);
            let r = after.subrange(h.len() as int + 1, after.len() as int);
            assert(r =~= x);
            assert(skip_ws(r, 0) == 0);
            assert(trim_start(r) =~= x);
            assert(d + seq![' '] + h =~= t);
        },
    }
}

/// A message written to the log reads back with the same timestamp,
/// content and kind, and the same sender (`*` for system lines), provided
/// the fields are ones the line format can carry (`log_round_trips`).
#[verifier::rlimit(50)]
#[verifier::spinoff_prover]
pub proof fn lemma_log_line_round_trip(m: ChatMessage, t: Seq<char>)
    requires
        log_round_trips(m, t),
    ensures
        spec_parse_log_line(spec_format_log_line(m)) == Some((m.timestamp@,
            if m.is_system { seq!['*'] } else { m.sender@ }, m.content@, !m.is_system && m.is_action, m.is_system)),
{
    lemma_log_time(t);
    lemma_line_safe_id(t);
    lemma_line_safe_id(m.content@);
    let c = m.content@;
    let s = m.sender@;
    let line = spec_format_log_line(m);
    let x = if m.is_system {
        seq!['-', '!', '-', ' '] + c
    } else if m.is_action {
        lemma_line_safe_id(s);
        seq!['*', ' '] + s + seq![' '] + c
    } else {
        lemma_line_safe_id(s);
        seq!['<'] + s + seq!['>', ' '] + c
    };
    assert(line =~= t + seq![' '] + x);
    lemma_split_formatted(t, x);
    assert(!starts_with(line, seq!['-', '-', '-'])) by {
        if line.len() >= 3 && line.subrange(0, 3) == seq!['-', '-', '-'] {
            if t.len() >= 3 {
                assert(t.subrange(0, 3) =~= line.subrange(0, 3));
            } else {
                assert(line.subrange(0, 3)[t.len() as int] == line[t.len() as int]);
                assert(line[t.len() as int] == ' ');
            }
        }
    }
    if m.is_system {
        assert(x.subrange(0, 4) =~= seq!['-', '!', '-', ' ']);
        assert(x.subrange(4, x.len() as int) =~= c);
    } else if m.is_action {
        assert(x[0] == '*');
        assert(!starts_with(x, seq!['-', '!', '-', ' '])) by {
            if starts_with(x, seq!['-', '!', '-', ' ']) {
                assert(x.subrange(0, 4)[0] == x[0]);
            }
        }
        assert(x.subrange(0, 2) =~= seq!['*', ' ']);
        let ar = x.subrange(2, x.len() as int);
        assert(ar =~= s + seq![' '] + c);
        assert forall|k: int| 0 <= k < s.len() implies ar[k] != ' ' by {
            if ar[k] == ' ' {
                assert(s[k] == ' ');
                assert(crate::text::has_char(s, ' '));
            }
        }
        lemma_find_first(ar, ' ', 0, s.len() as int);
        assert(ar.subrange(0, s.len() as int) =~= s);
        assert(ar.subrange(s.len() as int + 1, ar.len() as int) =~= c);
    } else {
        assert(x[0] == '<');
        assert(!starts_with(x, seq!['-', '!', '-', ' '])) by {
            if starts_with(x, seq!['-', '!', '-', ' ']) {
                assert(x.subrange(0, 4)[0] == x[0]);
            }
        }
        assert(!starts_with(x, seq!['*', ' '])) by {
            if starts_with(x, seq!['*', ' ']) {
                assert(x.subrange(0, 2)[0] == x[0]);
            }
        }
        assert forall|k: int| 0 <= k < s.len() + 1 implies x[k] != '>' by {
            if k > 0 && x[k] == '>' {
                assert(s[k - 1] == '>');
                assert(crate::text::has_char(s, '>'));
            }
        }
        lemma_find_first(x, '>', 0, s.len() as int + 1);
        assert(x.subrange(1, s.len() as int + 1) =~= s);
        let r = x.subrange(s.len() as int + 2, x.len() as int);
        assert(r =~= seq![' '] + c);
        assert(skip_ws(r, 1) == 1);
        assert(skip_ws(r, 0) == 1);
        assert(trim_start(r) =~= c);
    }
}

/// A line without its terminating CR (the CR of a CRLF ending).
pub open spec fn strip_cr(p: Seq<char>) -> Seq<char> {
    if p.len() > 0 && p.last() == '\r' { p.drop_last() } else { p }
}

/// `str::lines`: the pieces between LFs, each line ended by LF losing a CR
/// before it; a final piece is a line only if it is not empty.
pub open spec fn text_lines(s: Seq<char>) -> Seq<Seq<char>> {
    let pieces = split_on(s, '\n');
    let ended = pieces.drop_last().map_values(|p: Seq<char>| strip_cr(p));
    if pieces.last().len() > 0 { ended.push(pieces.last()) } else { ended }
}

/// The last `n` elements of `s` (all of it if shorter).
pub open spec fn last_n<T>(s: Seq<T>, n: nat) -> Seq<T> {
    if s.len() > n { s.subrange(s.len() - n, s.len() as int) } else { s }
}

/// The last `max_lines` lines of `text` (see `text_lines`).
pub fn last_lines(text: &str, max_lines: usize) -> (r: Vec<String>)
    ensures
        views(r@) == last_n(text_lines(text@), max_lines as nat),
{
    let v = chars_of(text);
    let mut done: Vec<String> = Vec::new();
    let mut cur: Vec<char> = Vec::new();
    let mut i: usize = 0;
    assert(v@.take(0) =~= Seq::<char>::empty());
    assert(views(done@) =~= split_on(v@.take(0), '\n').drop_last().map_values(|p: Seq<char>| strip_cr(p)));
    while i < v.len()
        invariant
            i <= v.len(),
            v@ == text@,
            split_on(v@.take(i as int), '\n').len() >= 1,
            views(done@) == split_on(v@.take(i as int), '\n').drop_last().map_values(|p: Seq<char>| strip_cr(p)),
            cur@ == split_on(v@.take(i as int), '\n').last(),
        decreases v.len() - i,
    {
        let ghost p = split_on(v@.take(i as int), '\n');
        proof {
            assert(v@.take(i as int + 1).drop_last() =~= v@.take(i as int));
            assert(v@.take(i as int + 1).last() == v@[i as int]);
        }
        let ghost q = split_on(v@.take(i as int + 1), '\n');
        if v[i] == '\n' {
            let end = if cur.len() > 0 && cur[cur.len() - 1] == '\r' { cur.len() - 1 } else { cur.len() };
            let line = string_from_range(&cur, 0, end);
            let ghost before = done@;
            done.push(line);
            proof {
                assert(q == p.push(Seq::empty()));
                assert(q.drop_last() =~= p);
                assert(line@ =~= strip_cr(cur@));
                assert(views(done@) =~= views(before).push(strip_cr(cur@)));
                assert(p.drop_last().push(p.last()) =~= p);
                assert(q.drop_last().map_values(|x: Seq<char>| strip_cr(x))
                    =~= p.drop_last().map_values(|x: Seq<char>| strip_cr(x)).push(strip_cr(p.last())));
            }
            cur = Vec::new();
        } else {
            cur.push(v[i]);
            proof {
                assert(q == p.update(p.len() - 1, p.last().push(v@[i as int])));
                assert(q.drop_last() =~= p.drop_last());
            }
        }
        i += 1;
    }
    assert(v@.take(v@.len() as int) =~= v@);
    if cur.len() > 0 {
        let ghost before = done@;
        done.push(string_from_chars(&cur));
        assert(views(done@) =~= views(before).push(cur@));
    }
    let ghost all = views(done@);
    assert(all == text_lines(text@));
    let n = done.len();
    assert(all.len() == n);
    if n > max_lines {
        let start: usize = n - max_lines;
        let mut out: Vec<String> = Vec::new();
        let mut k: usize = start;
        while k < n
            invariant
                start <= k <= n,
                start == n - max_lines,
                n == done.len(),
                all == views(done@),
                all.len() == n,
                views(out@) == all.subrange(start as int, k as int),
            decreases n - k,
        {
            let ghost before = out@;
            assert(all[k as int] == done@[k as int]@);
            out.push(to_string(done[k].as_str()));
            assert(views(out@) =~= views(before).push(all[k as int]));
            assert(all.subrange(start as int, k as int + 1) =~= all.subrange(start as int, k as int).push(all[k as int]));
            k += 1;
        }
        out
    } else {
        done
    }
}

/// The parsed log lines among `ls`, in order (unparsable lines skipped).
pub open spec fn parsed_lines(ls: Seq<Seq<char>>) -> Seq<(Seq<char>, Seq<char>, Seq<char>, bool, bool)>
    decreases ls.len(),
{
    if ls.len() == 0 {
        Seq::empty()
    } else {
        let rest = parsed_lines(ls.drop_last());
        match spec_parse_log_line(ls.last()) {
            Some(p) => rest.push(p),
            None => rest,
        }
    }
}

/// A history entry for `p` on `channel`: the parsed message, or, for a
/// credential command to a service, the same with its content replaced by a
/// placeholder and marked not to be logged.
pub open spec fn history_entry(channel: Seq<char>, m: ChatMessage, p: (Seq<char>, Seq<char>, Seq<char>, bool, bool)) -> bool {
    if spec_service_message_contains_credentials(channel, p.2) {
        &&& m.content@ == "<credential command redacted>"@
        &&& m.no_log
        &&& is_parsed_message(ChatMessage { content: m.content, no_log: false, ..m }, (p.0, p.1, m.content@, p.3, p.4))
    } else {
        is_parsed_message(m, p)
    }
}

/// The messages of a channel's log text: the last `max_lines` lines are
/// parsed (markers and malformed lines skipped) and credential commands are
/// redacted.
pub fn parse_history(text: &str, channel: &str, max_lines: usize) -> (r: Vec<ChatMessage>)
    ensures
        ({
            let p = parsed_lines(last_n(text_lines(text@), max_lines as nat));
            &&& r@.len() == p.len()
            &&& forall|i: int| 0 <= i < p.len() ==> history_entry(channel@, #[trigger] r@[i], p[i])
        }),
{
    let lines = last_lines(text, max_lines);
    let ghost ls = views(lines@);
    let mut messages: Vec<ChatMessage> = Vec::new();
    let mut i: usize = 0;
    while i < lines.len()
        invariant
            i <= lines.len(),
            ls == views(lines@),
            messages@.len() == parsed_lines(ls.take(i as int)).len(),
            forall|j: int| 0 <= j < messages@.len() ==> is_parsed_message(#[trigger] messages@[j], parsed_lines(ls.take(i as int))[j]),
        decreases lines.len() - i,
    {
        proof {
            assert(ls.take(i as int + 1).drop_last() =~= ls.take(i as int));
            assert(ls.take(i as int + 1).last() == lines@[i as int]@);
        }
        let ghost before = messages@;
        if let Some(m) = parse_log_line(lines[i].as_str()) {
            messages.push(m);
            proof {
                assert forall|j: int| 0 <= j < messages@.len() implies is_parsed_message(#[trigger] messages@[j], parsed_lines(ls.take(i as int + 1))[j]) by {
                    if j < before.len() {
                        assert(messages@[j] == before[j]);
                    }
                }
            }
        }
        i += 1;
    }
    assert(ls.take(ls.len() as int) =~= ls);
    let ghost parsed = messages@;
    redact_sensitive_history(channel, &mut messages);
    proof {
        let p = parsed_lines(ls);
        assert forall|i: int| 0 <= i < p.len() implies history_entry(channel@, #[trigger] messages@[i], p[i]) by {
            assert(is_parsed_message(parsed[i], p[i]));
        }
    }
    messages
}

/// English weekday abbreviation for 0 = Sunday .. 6 = Saturday.
pub open spec fn weekday_abbrev(w: int) -> Seq<char> {
    if w == 0 { seq!['S', 'u', 'n'] }
    else if w == 1 { seq!['M', 'o', 'n'] }
    else if w == 2 { seq!['T', 'u', 'e'] }
    else if w == 3 { seq!['W', 'e', 'd'] }
    else if w == 4 { seq!['T', 'h', 'u'] }
    else if w == 5 { seq!['F', 'r', 'i'] }
    else { seq!['S', 'a', 't'] }
}

/// The session-marker date of a Unix time (UTC), as "Thu Jan  1 00:00:00
/// 1970": weekday, month, space-padded day, zero-padded time, year.
pub open spec fn datetime_text(secs: nat) -> Seq<char> {
    let days = secs / 86400;
    let t = secs % 86400;
    let c = civil_from_days(days as int);
    weekday_abbrev(((days + 4) % 7) as int) + seq![' '] + month_abbrev(c.1) + seq![' '] + dec_space(c.2 as nat, 2)
        + seq![' '] + dec_pad((t / 3600) as nat, 2) + seq![':'] + dec_pad(((t % 3600) / 60) as nat, 2)
        + seq![':'] + dec_pad((t % 60) as nat, 2) + seq![' '] + dec((c.0 % 4294967296) as nat)
}

/// The session-marker date of a Unix time (see `datetime_text`).
#[verifier::rlimit(40)]
pub fn datetime_string(secs: u64) -> (r: String)
    ensures
        r@ == datetime_text(secs as nat),
{
    let days = secs / 86400;
    let time_secs = secs % 86400;
    let hours = time_secs / 3600;
    let minutes = (time_secs % 3600) / 60;
    let seconds = time_secs % 60;
    let (year, month, day) = days_to_ymd(days);
    // Jan 1, 1970 was a Thursday (4).
    let weekday = (days + 4) % 7;
    let (a, b, c) = if weekday == 0 { ('S', 'u', 'n') }
        else if weekday == 1 { ('M', 'o', 'n') }
        else if weekday == 2 { ('T', 'u', 'e') }
        else if weekday == 3 { ('W', 'e', 'd') }
        else if weekday == 4 { ('T', 'h', 'u') }
        else if weekday == 5 { ('F', 'r', 'i') }
        else { ('S', 'a', 't') };
    let mut out = String::new();
    push_char(&mut out, a);
    push_char(&mut out, b);
    push_char(&mut out, c);
    push_char(&mut out, ' ');
    push_month_abbrev(&mut out, month);
    push_char(&mut out, ' ');
    push_space2(&mut out, day as u64);
    push_char(&mut out, ' ');
    push_pad2(&mut out, hours);
    push_char(&mut out, ':');
    push_pad2(&mut out, minutes);
    push_char(&mut out, ':');
    push_pad2(&mut out, seconds);
    push_char(&mut out, ' ');
    push_dec(&mut out, year as u64);
    assert(out@ =~= datetime_text(secs as nat));
    out
}

/// The current date and time (UTC) for session markers.
pub fn current_datetime_string() -> (r: String)
    ensures
        exists|now: nat| r@ == datetime_text(now),
{
    let now = unix_now_secs();
    let r = datetime_string(now);
    assert(r@ == datetime_text(now as nat));
    r
}

/// Whether a message is written to a channel's log: logging is on and the
/// message is not a credential command to a service.
pub fn should_log_message(enabled: bool, channel: &str, msg: &ChatMessage) -> (r: bool)
    ensures
        r == (enabled && !spec_service_message_contains_credentials(channel@, msg.content@)),
{
    enabled && !service_message_contains_credentials(channel, msg.content.as_str())
}

/// The directory and file name of a channel's log under the log root:
/// encoded network, encoded channel with `.log`.
pub fn log_file_components(network: &str, channel: &str) -> (r: (String, String))
    ensures
        r.0@ == spec_encoded_path_component(network@),
        r.1@ == spec_encoded_path_component(channel@) + seq!['.', 'l', 'o', 'g'],
{
    let dir = encoded_path_component(network);
    let mut file = encoded_path_component(channel);
    push_char(&mut file, '.');
    push_char(&mut file, 'l');
    push_char(&mut file, 'o');
    push_char(&mut file, 'g');
    (dir, file)
}

/// The directory and file name of a channel's log in the older host-only
/// layout: sanitized network, sanitized channel with `.log`.
pub fn legacy_log_file_components(network: &str, channel: &str) -> (r: (String, String))
    ensures
        r.0@ == spec_sanitize_filename(network@),
        r.1@ == spec_sanitize_filename(channel@) + seq!['.', 'l', 'o', 'g'],
{
    let dir = sanitize_filename(network);
    let mut file = sanitize_filename(channel);
    push_char(&mut file, '.');
    push_char(&mut file, 'l');
    push_char(&mut file, 'o');
    push_char(&mut file, 'g');
    (dir, file)
}

/// Whether a legacy host-only log may be migrated: migration is allowed
/// and both legacy names are lossless (sanitizing leaves them unchanged), so
/// no other target's history can be imported by mistake.
pub fn legacy_migration_allowed(legacy_network: &str, channel: &str, allow_migration: bool) -> (r: bool)
    ensures
        r == (allow_migration && spec_sanitize_filename(legacy_network@) == legacy_network@
            && spec_sanitize_filename(channel@) == channel@),
{
    if !allow_migration {
        return false;
    }
    let a = sanitize_filename(legacy_network);
    let b = sanitize_filename(channel);
    chars_eq(&chars_of(a.as_str()), &chars_of(legacy_network)) && chars_eq(&chars_of(b.as_str()), &chars_of(channel))
}


pub open spec fn two_digits_at(t: Seq<char>, i: int) -> bool {
    '0' <= t[i] <= '9' && '0' <= t[i + 1] <= '9'
}

/// The timestamp shapes the client writes: `HH:MM`, `HH:MM:SS` and
/// `MM-DD HH:MM`.
pub open spec fn clock_stamp_shape(t: Seq<char>) -> bool {
    ||| (t.len() == 5 && two_digits_at(t, 0) && t[2] == ':' && two_digits_at(t, 3))
    ||| (t.len() == 8 && two_digits_at(t, 0) && t[2] == ':' && two_digits_at(t, 3) && t[5] == ':'
        && two_digits_at(t, 6))
    ||| (t.len() == 11 && two_digits_at(t, 0) && t[2] == '-' && two_digits_at(t, 3) && t[5] == ' '
        && two_digits_at(t, 6) && t[8] == ':' && two_digits_at(t, 9))
}

proof fn lemma_clock_stamp_safe(t: Seq<char>)
    requires
        clock_stamp_shape(t),
    ensures
        log_safe_stamp(t),
{
    assert(single_line(t));
    assert(!starts_with(t, seq!['-', '-', '-'])) by {
        if starts_with(t, seq!['-', '-', '-']) {
            assert(t.subrange(0, 3)[0] == t[0]);
        }
    }
    lemma_find_from(t, ' ', 0);
    if t.len() == 11 && t[5] == ' ' {
        assert(find_from(t, ' ', 0) == Some(5int)) by {
            if find_from(t, ' ', 0) != Some(5int) {
                assert(t[5] == ' ');
            }
        }
        let d = t.subrange(0, 5);
        let h = t.subrange(6, 11);
        assert(d[2] == '-');
        assert(!has_char(d, ':')) by {
            if has_char(d, ':') {
                let k = choose|k: int| 0 <= k < d.len() && d[k] == ':';
                assert(d[k] == t[k]);
            }
        }
        assert(!has_char(h, ' ')) by {
            if has_char(h, ' ') {
                let k = choose|k: int| 0 <= k < h.len() && h[k] == ' ';
                assert(h[k] == t[k + 6]);
            }
        }
    } else {
        assert(t[2] == ':');
        assert(find_from(t, ' ', 0) is None);
    }
}

/// A message whose timestamp has one of the client's shapes (see
/// `clock_stamp_shape`) reads back from its log line with the same
/// timestamp, content and kind, given single-line fields, an action sender
/// without spaces and a plain sender without `>` whose text does not start
/// with whitespace. Lines starting with `---` are never read as messages.
pub proof fn lemma_clock_stamped_log_round_trip(m: ChatMessage, t: Seq<char>, line: Seq<char>)
    requires
        m.timestamp@ == seq!['['] + t + seq![']'],
        clock_stamp_shape(t),
        single_line(m.content@),
        !m.is_system && m.is_action ==> single_line(m.sender@) && !has_char(m.sender@, ' '),
        !m.is_system && !m.is_action ==> single_line(m.sender@) && !has_char(m.sender@, '>')
            && (m.content@.len() == 0 || !is_ws(m.content@[0])),
    ensures
        spec_parse_log_line(spec_format_log_line(m)) == Some((m.timestamp@,
            if m.is_system { seq!['*'] } else { m.sender@ }, m.content@, !m.is_system && m.is_action, m.is_system)),
        starts_with(line, seq!['-', '-', '-']) ==> spec_parse_log_line(line) is None,
{
    lemma_clock_stamp_safe(t);
    lemma_log_line_round_trip(m, t);
}

} // verus!

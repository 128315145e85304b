//! Pure helpers of the command line: credential detection for local echo
//! and history, and argument parsing for /monitor, /mode and /server.

use vstd::prelude::*;

use crate::channel::opt_view;
use crate::message::{fresh_message, ChatMessage};
use crate::numfmt::{dec, dec_chars, parse_unsigned, parse_unsigned_range};
use crate::network::{lemma_prefix_run, prefix_run, prefix_run_exec};
use crate::text::{
    ascii_lower_seq, ascii_lower_vec, ascii_upper_range, ascii_upper_seq, chars_eq, chars_of,
    eq_ignore_ascii_case, find_char, find_from, is_whitespace, is_ws, lemma_find_from,
    lemma_skip_word, lemma_skip_ws, lemma_trim_end_len, range_eq_ignore_ascii_case, skip_word,
    skip_ws, split_whitespace_from, string_from_range, sub_chars, trim, trim_start, trim_string,
    views, words, words_from, debug_escaped, debug_quoted, has_char, push_str, push_char,
    string_from_chars, to_string, to_uppercase, unicode_uppercase, contains_char, split_whitespace,
};

verus! {

/// `s` with its leading characters from `set` removed (`trim_start_matches`).
pub open spec fn strip_leading(s: Seq<char>, set: Seq<char>) -> Seq<char> {
    s.subrange(prefix_run(s, set, 0), s.len() as int)
}

/// The text of `s` before the first `c` (all of `s` if there is none).
pub open spec fn before_char(s: Seq<char>, c: char) -> Seq<char> {
    match find_from(s, c, 0) {
        Some(k) => s.subrange(0, k),
        None => s,
    }
}

/// `str::split(c)`: the pieces of `s` between occurrences of `c`.
pub open spec fn split_on(s: Seq<char>, c: char) -> Seq<Seq<char>>
    decreases s.len(),
{
    if s.len() == 0 {
        seq![Seq::empty()]
    } else {
        let r = split_on(s.drop_last(), c);
        if s.last() == c {
            r.push(Seq::empty())
        } else {
            r.update(r.len() - 1, r.last().push(s.last()))
        }
    }
}

/// The pieces of `s` between the `c`s (`str::split`).
pub fn split_char(s: &str, c: char) -> (r: Vec<String>)
    ensures
        views(r@) == split_on(s@, c),
{
    let v = chars_of(s);
    let mut out: Vec<String> = Vec::new();
    let mut start: usize = 0;
    let mut i: usize = 0;
    proof {
        assert(v@.take(0) =~= Seq::<char>::empty());
    }
    while i < v.len()
        invariant
            start <= i <= v.len(),
            v@ == s@,
            views(out@).push(v@.subrange(start as int, i as int)) == split_on(v@.take(i as int), c),
        decreases v.len() - i,
    {
        let ghost before = views(out@).push(v@.subrange(start as int, i as int));
        proof {
            assert(v@.take(i as int + 1).drop_last() =~= v@.take(i as int));
            assert(v@.take(i as int + 1).last() == v@[i as int]);
        }
        if v[i] == c {
            let piece = string_from_range(&v, start, i);
            let ghost old_out = views(out@);
            out.push(piece);
            start = i + 1;
            proof {
                assert(views(out@) =~= before.drop_last().push(before.last()));
                assert(v@.subrange(start as int, i as int + 1) =~= Seq::<char>::empty());
                assert(views(out@).push(v@.subrange(start as int, i as int + 1)) =~= before.push(Seq::empty()));
            }
        } else {
            proof {
                assert(v@.subrange(start as int, i as int + 1) =~= v@.subrange(start as int, i as int).push(v@[i as int]));
                assert(views(out@).push(v@.subrange(start as int, i as int + 1))
                    =~= before.update(before.len() - 1, before.last().push(v@[i as int])));
            }
        }
        i += 1;
    }
    let piece = string_from_range(&v, start, v.len());
    let ghost before = views(out@);
    out.push(piece);
    proof {
        assert(views(out@) =~= before.push(v@.subrange(start as int, v@.len() as int)));
        assert(v@.take(v@.len() as int) =~= v@);
    }
    out
}

pub proof fn lemma_split_on_len(s: Seq<char>, c: char)
    ensures
        split_on(s, c).len() >= 1,
    decreases s.len(),
{
    if s.len() > 0 {
        lemma_split_on_len(s.drop_last(), c);
    }
}

/// The names of the authentication and channel services, lower-cased.
pub open spec fn is_service_name(t: Seq<char>) -> bool {
    t == "nickserv"@ || t == "ns"@ || t == "authserv"@ || t == "as"@ || t == "chanserv"@ || t == "cs"@
}

/// Whether a message target is an authentication or channel service:
/// status prefixes are ignored, as is a network qualification after `@`,
/// and the name compares ignoring ASCII case.
pub open spec fn spec_is_auth_service_target(t: Seq<char>) -> bool {
    is_service_name(ascii_lower_seq(before_char(strip_leading(t, "~&@%+"@), '@')))
}

/// Whether some comma-separated target of `target` is a service.
pub open spec fn any_auth_target(target: Seq<char>) -> bool {
    exists|k: int| 0 <= k < split_on(target, ',').len() && #[trigger] spec_is_auth_service_target(split_on(target, ',')[k])
}

/// Service commands that carry passwords, upper-case.
pub open spec fn is_credential_command(c: Seq<char>) -> bool {
    c == "IDENTIFY"@ || c == "ID"@ || c == "SIDENTIFY"@ || c == "AUTH"@ || c == "LOGIN"@
        || c == "REGISTER"@ || c == "GHOST"@ || c == "REGAIN"@ || c == "RECOVER"@ || c == "RELEASE"@
        || c == "GROUP"@ || c == "SETPASS"@ || c == "RESETPASS"@
}

/// Whether a message to `target` carries credentials: some target is a
/// service, and the message (after leading colons) starts with a
/// credential command, or with `SET PASSWORD` / `SET PASS`.
pub open spec fn spec_service_message_contains_credentials(target: Seq<char>, message: Seq<char>) -> bool {
    let w = words(strip_leading(message, seq![':']));
    let cmd = if w.len() > 0 { ascii_upper_seq(w[0]) } else { Seq::empty() };
    any_auth_target(target) && (is_credential_command(cmd)
        || (cmd == "SET"@ && w.len() > 1 && (eq_ignore_ascii_case(w[1], "PASSWORD"@) || eq_ignore_ascii_case(w[1], "PASS"@))))
}

/// Whether `cur` names a service (see `spec_is_auth_service_target`).
fn is_auth_chars(v: &Vec<char>) -> (r: bool)
    ensures
        r == spec_is_auth_service_target(v@),
{
    let prefixes = chars_of("~&@%+");
    let start = prefix_run_exec(v, &prefixes);
    proof {
        lemma_prefix_run(v@, prefixes@, 0);
    }
    let stripped = sub_chars(v, start, v.len());
    let end = match find_char(&stripped, '@', 0) {
        Some(k) => k,
        None => stripped.len(),
    };
    proof {
        lemma_find_from(stripped@, '@', 0);
    }
    let name = ascii_lower_vec(&sub_chars(&stripped, 0, end));
    assert(stripped@.subrange(0, stripped@.len() as int) =~= stripped@);
    chars_eq(&name, &chars_of("nickserv")) || chars_eq(&name, &chars_of("ns"))
        || chars_eq(&name, &chars_of("authserv")) || chars_eq(&name, &chars_of("as"))
        || chars_eq(&name, &chars_of("chanserv")) || chars_eq(&name, &chars_of("cs"))
}

/// Recognize an authentication or channel service target: canonical names,
/// common shorthands (/msg NS ...), and network-qualified nicks
/// (NickServ@services.example).
pub fn is_auth_service_target(raw_target: &str) -> (r: bool)
    ensures
        r == spec_is_auth_service_target(raw_target@),
{
    is_auth_chars(&chars_of(raw_target))
}

/// Whether some comma-separated target of `target` is a service.
fn any_auth_target_exec(target: &str) -> (r: bool)
    ensures
        r == any_auth_target(target@),
{
    let v = chars_of(target);
    let mut cur: Vec<char> = Vec::new();
    let mut found = false;
    let mut i: usize = 0;
    assert(v@.take(0) =~= Seq::<char>::empty());
    assert(split_on(v@.take(0), ',') =~= seq![Seq::<char>::empty()]);
    while i < v.len()
        invariant
            i <= v.len(),
            v@ == target@,
            split_on(v@.take(i as int), ',').len() >= 1,
            cur@ == split_on(v@.take(i as int), ',').last(),
            found == exists|k: int| 0 <= k < split_on(v@.take(i as int), ',').len() - 1
                && #[trigger] spec_is_auth_service_target(split_on(v@.take(i as int), ',')[k]),
        decreases v.len() - i,
    {
        let ghost p = split_on(v@.take(i as int), ',');
        proof {
            assert(v@.take(i as int + 1).drop_last() =~= v@.take(i as int));
            assert(v@.take(i as int + 1).last() == v@[i as int]);
        }
        let ghost q = split_on(v@.take(i as int + 1), ',');
        if v[i] == ',' {
            let here = is_auth_chars(&cur);
            proof {
                assert(q == p.push(Seq::empty()));
                if here {
                    assert(spec_is_auth_service_target(q[p.len() - 1]));
                }
                if found {
                    let k = choose|k: int| 0 <= k < p.len() - 1 && #[trigger] spec_is_auth_service_target(p[k]);
                    assert(q[k] == p[k]);
                }
                if exists|k: int| 0 <= k < q.len() - 1 && #[trigger] spec_is_auth_service_target(q[k]) {
                    let k = choose|k: int| 0 <= k < q.len() - 1 && #[trigger] spec_is_auth_service_target(q[k]);
                    if k < p.len() - 1 {
                        assert(q[k] == p[k]);
                    }
                }
            }
            found = found || here;
            cur = Vec::new();
        } else {
            cur.push(v[i]);
            proof {
                assert(q == p.update(p.len() - 1, p.last().push(v@[i as int])));
                if found {
                    let k = choose|k: int| 0 <= k < p.len() - 1 && #[trigger] spec_is_auth_service_target(p[k]);
                    assert(q[k] == p[k]);
                }
                if exists|k: int| 0 <= k < q.len() - 1 && #[trigger] spec_is_auth_service_target(q[k]) {
                    let k = choose|k: int| 0 <= k < q.len() - 1 && #[trigger] spec_is_auth_service_target(q[k]);
                    assert(q[k] == p[k]);
                }
            }
        }
        i += 1;
    }
    assert(v@.take(v@.len() as int) =~= v@);
    let last = is_auth_chars(&cur);
    proof {
        let p = split_on(v@, ',');
        if last {
            assert(spec_is_auth_service_target(p[p.len() - 1]));
        }
        if found {
            let k = choose|k: int| 0 <= k < p.len() - 1 && #[trigger] spec_is_auth_service_target(p[k]);
        }
        if any_auth_target(target@) {
            let k = choose|k: int| 0 <= k < p.len() && #[trigger] spec_is_auth_service_target(p[k]);
            if k < p.len() - 1 {
                assert(found);
            }
        }
    }
    found || last
}

/// Whether a message to `target` carries credentials (see
/// `spec_service_message_contains_credentials`). IRC permits
/// comma-separated targets; ChanServ IDENTIFY/REGISTER carry channel keys
/// and passwords too.
pub fn service_message_contains_credentials(target: &str, message: &str) -> (r: bool)
    ensures
        r == spec_service_message_contains_credentials(target@, message@),
{
    if !any_auth_target_exec(target) {
        return false;
    }
    let mv = chars_of(message);
    let colon = chars_of(":");
    proof {
        reveal_strlit(":");
        assert(colon@ =~= seq![':']);
        lemma_prefix_run(mv@, colon@, 0);
    }
    let start = prefix_run_exec(&mv, &colon);
    let w = split_whitespace_from(&mv, start);
    proof {
        lemma_words_shift(mv@, start as int);
    }
    if w.len() == 0 {
        proof {
            reveal_strlit("IDENTIFY");
            reveal_strlit("ID");
            reveal_strlit("SIDENTIFY");
            reveal_strlit("AUTH");
            reveal_strlit("LOGIN");
            reveal_strlit("REGISTER");
            reveal_strlit("GHOST");
            reveal_strlit("REGAIN");
            reveal_strlit("RECOVER");
            reveal_strlit("RELEASE");
            reveal_strlit("GROUP");
            reveal_strlit("SETPASS");
            reveal_strlit("RESETPASS");
            reveal_strlit("SET");
        }
        return false;
    }
    let wv = chars_of(w[0].as_str());
    assert(wv@.subrange(0, wv@.len() as int) =~= wv@);
    let cmd = ascii_upper_range(&wv, 0, wv.len());
    if chars_eq(&cmd, &chars_of("IDENTIFY")) || chars_eq(&cmd, &chars_of("ID"))
        || chars_eq(&cmd, &chars_of("SIDENTIFY")) || chars_eq(&cmd, &chars_of("AUTH"))
        || chars_eq(&cmd, &chars_of("LOGIN")) || chars_eq(&cmd, &chars_of("REGISTER"))
        || chars_eq(&cmd, &chars_of("GHOST")) || chars_eq(&cmd, &chars_of("REGAIN"))
        || chars_eq(&cmd, &chars_of("RECOVER")) || chars_eq(&cmd, &chars_of("RELEASE"))
        || chars_eq(&cmd, &chars_of("GROUP")) || chars_eq(&cmd, &chars_of("SETPASS"))
        || chars_eq(&cmd, &chars_of("RESETPASS")) {
        return true;
    }
    if !chars_eq(&cmd, &chars_of("SET")) || w.len() < 2 {
        return false;
    }
    let second = chars_of(w[1].as_str());
    assert(second@.subrange(0, second@.len() as int) =~= second@);
    range_eq_ignore_ascii_case(&second, 0, second.len(), &chars_of("PASSWORD"))
        || range_eq_ignore_ascii_case(&second, 0, second.len(), &chars_of("PASS"))
}

/// The words of a suffix are the words from that position.
proof fn lemma_words_shift(s: Seq<char>, k: int)
    requires
        0 <= k <= s.len(),
    ensures
        words(s.subrange(k, s.len() as int)) == words_from(s, k),
{
    lemma_words_from_shift(s, k, k);
}

proof fn lemma_words_from_shift(s: Seq<char>, k: int, i: int)
    requires
        0 <= k <= i <= s.len(),
    ensures
        words_from(s.subrange(k, s.len() as int), i - k) == words_from(s, i),
    decreases s.len() - i,
{
    let t = s.subrange(k, s.len() as int);
    if i < s.len() {
        lemma_skip_ws_shift(s, k, i);
        let a = crate::text::skip_ws(s, i);
        crate::text::lemma_skip_ws(s, i);
        if a < s.len() {
            lemma_skip_word_shift(s, k, a);
            crate::text::lemma_skip_word(s, a);
            let b = crate::text::skip_word(s, a);
            if b > i {
                lemma_words_from_shift(s, k, b);
                assert(t.subrange(a - k, b - k) =~= s.subrange(a, b));
            }
        }
    }
}

proof fn lemma_skip_ws_shift(s: Seq<char>, k: int, i: int)
    requires
        0 <= k <= i <= s.len(),
    ensures
        crate::text::skip_ws(s.subrange(k, s.len() as int), i - k) == crate::text::skip_ws(s, i) - k,
    decreases s.len() - i,
{
    if i < s.len() && crate::text::is_ws(s[i]) {
        lemma_skip_ws_shift(s, k, i + 1);
    }
}

proof fn lemma_skip_word_shift(s: Seq<char>, k: int, i: int)
    requires
        0 <= k <= i <= s.len(),
    ensures
        crate::text::skip_word(s.subrange(k, s.len() as int), i - k) == crate::text::skip_word(s, i) - k,
    decreases s.len() - i,
{
    if i < s.len() && !crate::text::is_ws(s[i]) {
        lemma_skip_word_shift(s, k, i + 1);
    }
}

/// `str::splitn(2, char::is_whitespace)`: the text before the first
/// whitespace character, and the text after it (empty if there is none).
pub open spec fn split_first_ws(s: Seq<char>) -> (Seq<char>, Seq<char>) {
    let k = skip_word(s, 0);
    (s.subrange(0, k), if k < s.len() { s.subrange(k + 1, s.len() as int) } else { Seq::empty() })
}

/// Commands whose arguments are credentials outright, upper-case.
pub open spec fn is_secret_command(c: Seq<char>) -> bool {
    c == "PASS"@ || c == "AUTHENTICATE"@ || c == "OPER"@
}

/// Commands that send a message to a given target, upper-case.
pub open spec fn is_message_command(c: Seq<char>) -> bool {
    c == "MSG"@ || c == "PRIVMSG"@ || c == "QUERY"@ || c == "Q"@ || c == "NOTICE"@ || c == "N"@
}

/// Whether a typed command line (with or without its leading `/`) sends
/// credentials: PASS, AUTHENTICATE and OPER always do; service shorthands
/// and messages do when `spec_service_message_contains_credentials` says
/// so; RAW/QUOTE and PERFORM (other than `PERFORM clear`) are judged by the
/// line they carry.
pub open spec fn spec_command_line_contains_credentials(line: Seq<char>) -> bool
    decreases line.len(),
{
    let l = strip_leading(trim(line), seq!['/']);
    let parts = split_first_ws(l);
    let args = trim_start(parts.1);
    let cmd = ascii_upper_seq(parts.0);
    if is_secret_command(cmd) {
        true
    } else if cmd == "NS"@ || cmd == "NICKSERV"@ {
        spec_service_message_contains_credentials("NickServ"@, args)
    } else if cmd == "CS"@ || cmd == "CHANSERV"@ {
        spec_service_message_contains_credentials("ChanServ"@, args)
    } else if cmd == "AS"@ || cmd == "AUTHSERV"@ {
        spec_service_message_contains_credentials("AuthServ"@, args)
    } else if is_message_command(cmd) {
        let m = split_first_ws(args);
        spec_service_message_contains_credentials(m.0, trim_start(m.1))
    } else if cmd == "RAW"@ || cmd == "QUOTE"@ || (cmd == "PERFORM"@ && !eq_ignore_ascii_case(args, "clear"@)) {
        if args.len() < line.len() {
            spec_command_line_contains_credentials(args)
        } else {
            false
        }
    } else {
        false
    }
}

/// Split `v[from..]` at its first whitespace character: returns the end of
/// the first word and the start of the remainder once its leading
/// whitespace is skipped.
fn first_word_split(v: &Vec<char>, from: usize) -> (r: (usize, usize))
    requires
        from <= v.len(),
    ensures
        from <= r.0 <= r.1 <= v.len(),
        r.0 < v.len() ==> r.0 < r.1,
        split_first_ws(v@.subrange(from as int, v@.len() as int)).0 == v@.subrange(from as int, r.0 as int),
        trim_start(split_first_ws(v@.subrange(from as int, v@.len() as int)).1) == v@.subrange(r.1 as int, v@.len() as int),
{
    let ghost s = v@;
    let ghost t = s.subrange(from as int, s.len() as int);
    let mut k: usize = from;
    while k < v.len() && !is_whitespace(v[k])
        invariant
            from <= k <= v.len(),
            s == v@,
            skip_word(s, from as int) == skip_word(s, k as int),
        decreases v.len() - k,
    {
        k += 1;
    }
    proof {
        lemma_skip_word_shift(s, from as int, from as int);
        assert(skip_word(t, 0) == k - from);
    }
    let rest: usize = if k < v.len() { k + 1 } else { v.len() };
    let mut a: usize = rest;
    while a < v.len() && is_whitespace(v[a])
        invariant
            rest <= a <= v.len(),
            s == v@,
            skip_ws(s, rest as int) == skip_ws(s, a as int),
        decreases v.len() - a,
    {
        a += 1;
    }
    proof {
        let p1 = split_first_ws(t).1;
        if k < v.len() {
            assert(p1 =~= s.subrange(rest as int, s.len() as int));
            lemma_skip_ws_shift(s, rest as int, rest as int);
            assert(trim_start(p1) =~= s.subrange(a as int, s.len() as int));
        } else {
            assert(p1 =~= Seq::<char>::empty());
            assert(trim_start(p1) =~= s.subrange(a as int, s.len() as int));
        }
        assert(split_first_ws(t).0 =~= s.subrange(from as int, k as int));
    }
    (k, a)
}

proof fn lemma_trim_len(s: Seq<char>)
    ensures
        trim(s).len() <= s.len(),
{
    lemma_skip_ws(s, 0);
    let st = trim_start(s);
    lemma_trim_end_len(st, st.len() as int);
}

/// Whether a typed command line sends credentials (see
/// `spec_command_line_contains_credentials`); used to keep such lines out
/// of input history and local echo.
pub fn command_line_contains_credentials(line: &str) -> (r: bool)
    ensures
        r == spec_command_line_contains_credentials(line@),
    decreases line@.len(),
{
    let t = trim_string(line);
    let tv = chars_of(t.as_str());
    let slash = chars_of("/");
    proof {
        reveal_strlit("/");
        assert(slash@ =~= seq!['/']);
        lemma_prefix_run(tv@, slash@, 0);
        lemma_trim_len(line@);
    }
    let s0 = prefix_run_exec(&tv, &slash);
    let (k, a) = first_word_split(&tv, s0);
    let cmd = ascii_upper_range(&tv, s0, k);
    let args = string_from_range(&tv, a, tv.len());
    proof {
        assert(strip_leading(trim(line@), seq!['/']) == tv@.subrange(s0 as int, tv@.len() as int));
    }
    if chars_eq(&cmd, &chars_of("PASS")) || chars_eq(&cmd, &chars_of("AUTHENTICATE")) || chars_eq(&cmd, &chars_of("OPER")) {
        return true;
    }
    if chars_eq(&cmd, &chars_of("NS")) || chars_eq(&cmd, &chars_of("NICKSERV")) {
        return service_message_contains_credentials("NickServ", args.as_str());
    }
    if chars_eq(&cmd, &chars_of("CS")) || chars_eq(&cmd, &chars_of("CHANSERV")) {
        return service_message_contains_credentials("ChanServ", args.as_str());
    }
    if chars_eq(&cmd, &chars_of("AS")) || chars_eq(&cmd, &chars_of("AUTHSERV")) {
        return service_message_contains_credentials("AuthServ", args.as_str());
    }
    if chars_eq(&cmd, &chars_of("MSG")) || chars_eq(&cmd, &chars_of("PRIVMSG")) || chars_eq(&cmd, &chars_of("QUERY"))
        || chars_eq(&cmd, &chars_of("Q")) || chars_eq(&cmd, &chars_of("NOTICE")) || chars_eq(&cmd, &chars_of("N")) {
        let av = chars_of(args.as_str());
        let (e, c) = first_word_split(&av, 0);
        assert(av@.subrange(0, av@.len() as int) =~= av@);
        let target = string_from_range(&av, 0, e);
        let content = string_from_range(&av, c, av.len());
        return service_message_contains_credentials(target.as_str(), content.as_str());
    }
    let av = chars_of(args.as_str());
    assert(av@.subrange(0, av@.len() as int) =~= av@);
    let raw = chars_eq(&cmd, &chars_of("RAW")) || chars_eq(&cmd, &chars_of("QUOTE"));
    let perform = chars_eq(&cmd, &chars_of("PERFORM")) && !range_eq_ignore_ascii_case(&av, 0, av.len(), &chars_of("clear"));
    if raw || perform {
        proof {
            reveal_strlit("RAW");
            reveal_strlit("QUOTE");
            reveal_strlit("PERFORM");
            assert(cmd@.len() == k - s0);
            assert(args@.len() < line@.len());
        }
        return command_line_contains_credentials(args.as_str());
    }
    false
}

/// `/monitor` arguments split at the first space: the first part, and the
/// rest if there was a space.
pub open spec fn split_first_space(s: Seq<char>) -> (Seq<char>, Option<Seq<char>>) {
    match find_from(s, ' ', 0) {
        Some(k) => (s.subrange(0, k), Some(s.subrange(k + 1, s.len() as int))),
        None => (s, None),
    }
}

/// `s` with each space replaced by a comma.
pub open spec fn spaces_to_commas(s: Seq<char>) -> Seq<char> {
    s.map_values(|c: char| if c == ' ' { ',' } else { c })
}

/// The /monitor subcommand and targets for `args`, given the upper-case
/// form of its first part: a known subcommand (`+ - C L S`) is kept with
/// the rest; an attached sign (`+nick`) is split off and further targets
/// are joined with commas; bare nicks mean `+`.
pub open spec fn spec_monitor_args(args: Seq<char>, first_upper: Seq<char>) -> (Seq<char>, Option<Seq<char>>) {
    let first = split_first_space(args).0;
    let rest = split_first_space(args).1;
    if first_upper == seq!['+'] || first_upper == seq!['-'] || first_upper == seq!['C']
        || first_upper == seq!['L'] || first_upper == seq!['S'] {
        (first_upper, rest)
    } else if first.len() > 0 && (first[0] == '+' || first[0] == '-') {
        (seq![first[0]], Some(first.subrange(1, first.len() as int) + match rest {
            Some(m) => seq![','] + spaces_to_commas(m),
            None => Seq::empty(),
        }))
    } else {
        (seq!['+'], Some(args))
    }
}

/// `/monitor` argument split, given the upper-case form of the part before
/// the first space (see `spec_monitor_args`).
pub fn monitor_args_upper(args: &str, first_upper: &str) -> (r: (String, Option<String>))
    ensures
        (r.0@, opt_view(r.1)) == spec_monitor_args(args@, first_upper@),
{
    let v = chars_of(args);
    proof {
        lemma_find_from(v@, ' ', 0);
        assert(v@.subrange(0, v@.len() as int) =~= v@);
    }
    let (first_end, rest) = match find_char(&v, ' ', 0) {
        Some(k) => (k, Some(string_from_range(&v, k + 1, v.len()))),
        None => (v.len(), None),
    };
    let uv = chars_of(first_upper);
    if (uv.len() == 1 && (uv[0] == '+' || uv[0] == '-' || uv[0] == 'C' || uv[0] == 'L' || uv[0] == 'S')) {
        assert(uv@ =~= seq![uv@[0]]);
        return (to_string(first_upper), rest);
    }
    proof {
        if first_upper@ == seq!['+'] || first_upper@ == seq!['-'] || first_upper@ == seq!['C']
            || first_upper@ == seq!['L'] || first_upper@ == seq!['S'] {
            assert(uv@.len() == 1);
        }
    }
    if first_end > 0 && (v[0] == '+' || v[0] == '-') {
        let mut targets = string_from_range(&v, 1, first_end);
        let ghost f = v@.subrange(1, first_end as int);
        match rest {
            Some(more) => {
                // "/monitor +a b": targets are comma-separated on the wire.
                push_char(&mut targets, ',');
                let mv = chars_of(more.as_str());
                let mut i: usize = 0;
                while i < mv.len()
                    invariant
                        i <= mv.len(),
                        targets@ == f + seq![','] + spaces_to_commas(mv@.take(i as int)),
                    decreases mv.len() - i,
                {
                    let c = if mv[i] == ' ' { ',' } else { mv[i] };
                    push_char(&mut targets, c);
                    i += 1;
                    assert(spaces_to_commas(mv@.take(i as int)) =~= spaces_to_commas(mv@.take(i as int - 1)).push(c));
                }
                assert(mv@.take(mv@.len() as int) =~= mv@);
            },
            None => {
                assert(f + Seq::<char>::empty() =~= f);
            },
        }
        let sign = string_from_range(&v, 0, 1);
        assert(v@.subrange(0, 1) =~= seq![v@[0]]);
        assert(v@.subrange(0, first_end as int).subrange(1, first_end as int) =~= f);
        return (sign, Some(targets));
    }
    let plus = chars_of("+");
    proof {
        reveal_strlit("+");
    }
    (string_from_chars(&plus), Some(to_string(args)))
}

/// Split /monitor arguments into (subcommand, targets), accepting both the
/// documented "+ nick1,nick2" form and the attached "+nick1,nick2" form.
pub fn monitor_args(args: &str) -> (r: (String, Option<String>))
    ensures
        (r.0@, opt_view(r.1)) == spec_monitor_args(args@, unicode_uppercase(split_first_space(args@).0)),
{
    let v = chars_of(args);
    let first_end = match find_char(&v, ' ', 0) {
        Some(k) => k,
        None => v.len(),
    };
    proof {
        lemma_find_from(v@, ' ', 0);
        assert(v@.subrange(0, v@.len() as int) =~= v@);
    }
    let first = string_from_range(&v, 0, first_end);
    let upper = to_uppercase(first.as_str());
    monitor_args_upper(args, upper.as_str())
}

/// The /mode target, mode string and parameters for `args`; a leading
/// mode string (`/mode +m`) applies to the current channel.
pub open spec fn spec_mode_command_args(args: Seq<char>, current: Option<Seq<char>>)
    -> Option<(Seq<char>, Option<Seq<char>>, Seq<Seq<char>>)> {
    let w = words(args);
    if w.len() == 0 {
        None
    } else if w[0].len() > 0 && (w[0][0] == '+' || w[0][0] == '-') {
        match current {
            Some(c) => Some((c, Some(w[0]), w.subrange(1, w.len() as int))),
            None => None,
        }
    } else {
        Some((w[0], if w.len() > 1 { Some(w[1]) } else { None },
            if w.len() > 2 { w.subrange(2, w.len() as int) } else { Seq::empty() }))
    }
}

/// Parse `/mode` arguments (see `spec_mode_command_args`).
pub fn mode_command_args(args: &str, current_channel: Option<&str>) -> (r: Option<(String, Option<String>, Vec<String>)>)
    ensures
        spec_mode_command_args(args@, match current_channel { Some(c) => Some(c@), None => None }) == match r {
            Some(t) => Some((t.0@, opt_view(t.1), views(t.2@))),
            None => None,
        },
{
    let mut w = split_whitespace(args);
    let ghost ws = views(w@);
    if w.len() == 0 {
        return None;
    }
    let fv = chars_of(w[0].as_str());
    if fv.len() > 0 && (fv[0] == '+' || fv[0] == '-') {
        let target = match current_channel {
            Some(c) => to_string(c),
            None => {
                return None;
            },
        };
        let first = w.remove(0);
        assert(views(w@) =~= ws.subrange(1, ws.len() as int));
        return Some((target, Some(first), w));
    }
    let first = w.remove(0);
    let second = if w.len() > 0 {
        Some(w.remove(0))
    } else {
        None
    };
    assert(views(w@) =~= if ws.len() > 2 { ws.subrange(2, ws.len() as int) } else { Seq::empty() });
    Some((first, second, w))
}

/// The message for a port that is not a number from 1 to 65535.
pub open spec fn port_error(v: Seq<char>) -> Seq<char> {
    "Invalid server port "@ + debug_escaped(v) + "; enter a number from 1 to 65535"@
}

/// A server port: the trimmed text parses as a `u16` and is not 0.
pub open spec fn spec_parse_server_port(value: Seq<char>) -> Result<u16, Seq<char>> {
    let v = trim(value);
    match parse_unsigned(v, 65535) {
        Some(p) => if p > 0 { Ok(p as u16) } else { Err(port_error(v)) },
        None => Err(port_error(v)),
    }
}

/// Parse a server port from 1 to 65535.
pub fn parse_server_port(value: &str) -> (r: Result<u16, String>)
    ensures
        spec_parse_server_port(value@) == match r {
            Ok(p) => Ok(p),
            Err(e) => Err(e@),
        },
{
    let t = trim_string(value);
    let tv = chars_of(t.as_str());
    assert(tv@.subrange(0, tv@.len() as int) =~= tv@);
    match parse_unsigned_range(&tv, 0, tv.len(), 65535) {
        Some(p) if p > 0 => Ok(p as u16),
        _ => {
            let mut e = to_string("Invalid server port ");
            let q = debug_quoted(t.as_str());
            push_str(&mut e, q.as_str());
            push_str(&mut e, "; enter a number from 1 to 65535");
            Err(e)
        },
    }
}

/// Strip every leading and trailing character of `s` that is in `set`
/// (`str::trim_matches`).
pub open spec fn strip_both(s: Seq<char>, set: Seq<char>) -> Seq<char> {
    let t = strip_leading(s, set);
    t.subrange(0, trail_len(t, set, t.len() as int))
}

/// Length of `s[..n]` once trailing characters in `set` are removed.
pub open spec fn trail_len(s: Seq<char>, set: Seq<char>, n: int) -> int
    decreases n,
{
    if n <= 0 || n > s.len() || !has_char(set, s[n - 1]) {
        n
    } else {
        trail_len(s, set, n - 1)
    }
}

/// Number of occurrences of `c` in `s`.
pub open spec fn count_char(s: Seq<char>, c: char) -> nat
    decreases s.len(),
{
    if s.len() == 0 {
        0
    } else {
        count_char(s.drop_last(), c) + if s.last() == c { 1nat } else { 0nat }
    }
}

/// A parsed host with the port result.
pub open spec fn with_port(host: Seq<char>, p: Result<u16, Seq<char>>) -> Result<(Seq<char>, Option<Seq<char>>), Seq<char>> {
    match p {
        Ok(n) => Ok((host, Some(dec(n as nat)))),
        Err(e) => Err(e),
    }
}

/// The /server argument: "host", "host port", "host:port",
/// "[v6::addr]:port", or a bare IPv6 literal (several colons, not split).
pub open spec fn spec_parse_server_arg(args: Seq<char>) -> Result<(Seq<char>, Option<Seq<char>>), Seq<char>> {
    let a = trim(args);
    match find_from(a, ' ', 0) {
        Some(k) => with_port(strip_both(a.subrange(0, k), seq!['[', ']']),
            spec_parse_server_port(a.subrange(k + 1, a.len() as int))),
        None => if a.len() > 0 && a[0] == '[' {
            let rest = a.subrange(1, a.len() as int);
            match find_from(rest, ']', 0) {
                Some(j) => {
                    let host = rest.subrange(0, j);
                    let after = rest.subrange(j + 1, rest.len() as int);
                    if after.len() > 0 && after[0] == ':' {
                        with_port(host, spec_parse_server_port(after.subrange(1, after.len() as int)))
                    } else if after.len() == 0 {
                        Ok((host, None))
                    } else {
                        Err("Invalid server endpoint: "@ + a)
                    }
                },
                None => Ok((rest, None)),
            }
        } else if count_char(a, ':') == 1 {
            let k = find_from(a, ':', 0).unwrap();
            if k == 0 {
                Err("Server host cannot be empty"@)
            } else {
                with_port(a.subrange(0, k), spec_parse_server_port(a.subrange(k + 1, a.len() as int)))
            }
        } else {
            Ok((a, None))
        },
    }
}

proof fn lemma_count_char_find(s: Seq<char>, c: char)
    ensures
        count_char(s, c) > 0 ==> find_from(s, c, 0).is_some(),
    decreases s.len(),
{
    crate::text::lemma_has_char_find(s, c);
    if s.len() > 0 {
        lemma_count_char_find(s.drop_last(), c);
        crate::text::lemma_has_char_find(s.drop_last(), c);
        if count_char(s.drop_last(), c) > 0 {
            let k = choose|k: int| 0 <= k < s.drop_last().len() && s.drop_last()[k] == c;
            assert(s[k] == c);
        } else if s.last() == c {
            assert(s[s.len() - 1] == c);
        }
    }
}

fn count_char_exec(v: &Vec<char>, c: char) -> (r: usize)
    ensures
        r == count_char(v@, c),
{
    let mut n: usize = 0;
    let mut i: usize = 0;
    while i < v.len()
        invariant
            i <= v.len(),
            n == count_char(v@.take(i as int), c),
            n <= i,
        decreases v.len() - i,
    {
        proof {
            assert(v@.take(i as int + 1).drop_last() =~= v@.take(i as int));
        }
        if v[i] == c {
            n += 1;
        }
        i += 1;
    }
    assert(v@.take(v@.len() as int) =~= v@);
    n
}

/// `v[from..to]` with bracket characters trimmed from both ends.
fn strip_brackets(v: &Vec<char>, from: usize, to: usize) -> (r: String)
    requires
        from <= to <= v.len(),
    ensures
        r@ == strip_both(v@.subrange(from as int, to as int), seq!['[', ']']),
{
    let set = chars_of("[]");
    proof {
        reveal_strlit("[]");
        assert(set@ =~= seq!['[', ']']);
    }
    let part = sub_chars(v, from, to);
    let a = prefix_run_exec(&part, &set);
    proof {
        lemma_prefix_run(part@, set@, 0);
    }
    let t = sub_chars(&part, a, part.len());
    let mut b: usize = t.len();
    while b > 0 && contains_char(&set, t[b - 1])
        invariant
            b <= t.len(),
            trail_len(t@, set@, t@.len() as int) == trail_len(t@, set@, b as int),
        decreases b,
    {
        b -= 1;
    }
    string_from_range(&t, 0, b)
}

/// The decimal text of a port.
fn port_text(p: u16) -> (r: String)
    ensures
        r@ == dec(p as nat),
{
    string_from_chars(&dec_chars(p as u64))
}

/// Parse the /server argument (see `spec_parse_server_arg`).
pub fn parse_server_arg(args: &str) -> (r: Result<(String, Option<String>), String>)
    ensures
        spec_parse_server_arg(args@) == match r {
            Ok(t) => Ok((t.0@, opt_view(t.1))),
            Err(e) => Err(e@),
        },
{
    let t = trim_string(args);
    let a = chars_of(t.as_str());
    proof {
        lemma_find_from(a@, ' ', 0);
        lemma_find_from(a@, ':', 0);
    }
    // Space-separated form: "host 6697" (works for any host including IPv6).
    if let Some(k) = find_char(&a, ' ', 0) {
        let host = strip_brackets(&a, 0, k);
        let port = string_from_range(&a, k + 1, a.len());
        return match parse_server_port(port.as_str()) {
            Ok(p) => Ok((host, Some(port_text(p)))),
            Err(e) => Err(e),
        };
    }
    // Bracketed IPv6 with optional port: "[::1]:6697" or "[::1]".
    if a.len() > 0 && a[0] == '[' {
        let rest = sub_chars(&a, 1, a.len());
        proof {
            lemma_find_from(rest@, ']', 0);
        }
        if let Some(j) = find_char(&rest, ']', 0) {
            let host = string_from_range(&rest, 0, j);
            if j + 1 < rest.len() && rest[j + 1] == ':' {
                let port = string_from_range(&rest, j + 2, rest.len());
                assert(rest@.subrange(j + 1, rest@.len() as int).subrange(1, rest@.len() - j - 1) =~= rest@.subrange(j + 2, rest@.len() as int));
                return match parse_server_port(port.as_str()) {
                    Ok(p) => Ok((host, Some(port_text(p)))),
                    Err(e) => Err(e),
                };
            }
            if j + 1 == rest.len() {
                return Ok((host, None));
            }
            let mut e = to_string("Invalid server endpoint: ");
            push_str(&mut e, t.as_str());
            return Err(e);
        }
        return Ok((string_from_chars(&rest), None));
    }
    // "host:port" - only with exactly one colon; an IPv6 literal has several
    // colons and falls through as a bare host.
    proof {
        lemma_count_char_find(a@, ':');
    }
    if count_char_exec(&a, ':') == 1 {
        if let Some(k) = find_char(&a, ':', 0) {
            if k == 0 {
                return Err(to_string("Server host cannot be empty"));
            }
            let host = string_from_range(&a, 0, k);
            let port = string_from_range(&a, k + 1, a.len());
            return match parse_server_port(port.as_str()) {
                Ok(p) => Ok((host, Some(port_text(p)))),
                Err(e) => Err(e),
            };
        }
    }
    Ok((t, None))
}

/// The local echo of a message we send: a credential command to a service
/// is shown as a placeholder and kept out of the log.
pub fn outgoing_local_echo(target: &str, sender: &str, content: &str, format: &str, utc_offset_secs: i64) -> (r: ChatMessage)
    ensures
        spec_service_message_contains_credentials(target@, content@) ==> {
            &&& r.no_log
            &&& fresh_message(ChatMessage { no_log: false, ..r }, sender@, "<credential command sent>"@, false, false,
                false, format@, utc_offset_secs as int)
        },
        !spec_service_message_contains_credentials(target@, content@)
            ==> fresh_message(r, sender@, content@, false, false, false, format@, utc_offset_secs as int),
{
    if service_message_contains_credentials(target, content) {
        ChatMessage::new_fmt(sender, "<credential command sent>", format, utc_offset_secs).without_logging()
    } else {
        ChatMessage::new_fmt(sender, content, format, utc_offset_secs)
    }
}

} // verus!

//! Ordering by a text key, tab completion of nicks and commands, and the
//! order in which Ctrl+Tab visits the open tabs.

use vstd::prelude::*;

use crate::listing::TabCompletion;
use crate::network::{spec_network_canonicalize, NetworkSupport};
use crate::channel::{clone_opt, opt_view, lemma_lex_total, lex_le, lex_le_exec, Channel, UserView};
use crate::text::{ascii_lower_seq, ascii_lower_vec, chars_of, is_whitespace, is_ws, push_str, string_from_range, starts_with, starts_with_at, to_lowercase, to_string,
    unicode_lowercase, views};

verus! {

broadcast use vstd::seq_lib::group_filter_ensures;

/// An entry to be ordered: its sort key and its value.
pub open spec fn keyed_views(s: Seq<(Vec<char>, String)>) -> Seq<(Seq<char>, Seq<char>)> {
    s.map_values(|e: (Vec<char>, String)| (e.0@, e.1@))
}

/// The entries of `s` whose key is `k`, in order.
pub open spec fn with_key(s: Seq<(Seq<char>, Seq<char>)>, k: Seq<char>) -> Seq<(Seq<char>, Seq<char>)> {
    s.filter(|e: (Seq<char>, Seq<char>)| e.0 == k)
}

/// Keys ascend (code-point order, as `str` compares).
pub open spec fn keys_ascending(s: Seq<(Seq<char>, Seq<char>)>) -> bool {
    forall|i: int, j: int| 0 <= i < j < s.len() ==> lex_le(#[trigger] s[i].0, #[trigger] s[j].0)
}

/// `out` is `input` sorted stably by key (`sort_by_key`): keys ascend, and
/// the entries of each key are those of `input`, in their order.
pub open spec fn stable_sorted_by_key(out: Seq<(Seq<char>, Seq<char>)>, input: Seq<(Seq<char>, Seq<char>)>) -> bool {
    &&& keys_ascending(out)
    &&& forall|k: Seq<char>| #[trigger] with_key(out, k) == with_key(input, k)
}

proof fn lemma_with_key_single(x: (Seq<char>, Seq<char>), k: Seq<char>)
    ensures
        with_key(seq![x], k) == (if x.0 == k { seq![x] } else { Seq::<(Seq<char>, Seq<char>)>::empty() }),
{
    reveal_with_fuel(Seq::filter, 2);
    assert(seq![x].drop_last() =~= Seq::<(Seq<char>, Seq<char>)>::empty());
}

proof fn lemma_with_key_append(a: Seq<(Seq<char>, Seq<char>)>, b: Seq<(Seq<char>, Seq<char>)>, k: Seq<char>)
    ensures
        with_key(a + b, k) == with_key(a, k) + with_key(b, k),
{
    Seq::filter_distributes_over_add(a, b, |e: (Seq<char>, Seq<char>)| e.0 == k);
}

/// Inserting `x` after every entry whose key is at most its own, and before
/// every larger one, keeps keys ascending and appends `x` to its key class.
proof fn lemma_insert_keyed(s: Seq<(Seq<char>, Seq<char>)>, p: int, x: (Seq<char>, Seq<char>))
    requires
        0 <= p <= s.len(),
        keys_ascending(s),
        forall|j: int| 0 <= j < p ==> lex_le(#[trigger] s[j].0, x.0),
        forall|j: int| p <= j < s.len() ==> !lex_le(#[trigger] s[j].0, x.0),
    ensures
        keys_ascending(s.insert(p, x)),
        forall|k: Seq<char>| #[trigger] with_key(s.insert(p, x), k) == with_key(s, k) + with_key(seq![x], k),
{
    let t = s.insert(p, x);
    assert forall|i: int, j: int| 0 <= i < j < t.len() implies lex_le(#[trigger] t[i].0, #[trigger] t[j].0) by {
        if j < p {
            assert(t[i] == s[i] && t[j] == s[j]);
        } else if j == p {
            assert(t[i] == s[i]);
        } else if i == p {
            assert(t[j] == s[j - 1]);
            lemma_lex_total(s[j - 1].0, x.0, 0);
        } else if i < p {
            assert(t[i] == s[i] && t[j] == s[j - 1]);
        } else {
            assert(t[i] == s[i - 1] && t[j] == s[j - 1]);
        }
    }
    let front = s.take(p);
    let back = s.skip(p);
    assert(t =~= front + seq![x] + back);
    assert(s =~= front + back);
    assert forall|k: Seq<char>| #[trigger] with_key(t, k) == with_key(s, k) + with_key(seq![x], k) by {
        lemma_with_key_append(front + seq![x], back, k);
        lemma_with_key_append(front, seq![x], k);
        lemma_with_key_append(front, back, k);
        lemma_with_key_single(x, k);
        if x.0 == k {
            let wb = with_key(back, k);
            if wb.len() > 0 {
                let e = wb[0];
                assert(wb.contains(e));
                back.lemma_filter_contains_rev(|e: (Seq<char>, Seq<char>)| e.0 == k, e);
                let j = choose|j: int| 0 <= j < back.len() && back[j] == e;
                assert(s[p + j] == e);
                lemma_lex_total(x.0, x.0, 0);
                assert(false);
            }
            assert(wb =~= Seq::<(Seq<char>, Seq<char>)>::empty());
            assert(with_key(t, k) =~= with_key(s, k) + with_key(seq![x], k));
        } else {
            assert(with_key(t, k) =~= with_key(s, k) + with_key(seq![x], k));
        }
    }
}

/// Sort entries stably by key (`sort_by_key` on the keys).
pub fn sort_by_key_stable(items: Vec<(Vec<char>, String)>) -> (out: Vec<(Vec<char>, String)>)
    ensures
        stable_sorted_by_key(keyed_views(out@), keyed_views(items@)),
        out@.len() == items@.len(),
        forall|i: int| 0 <= i < out@.len() ==> keyed_views(items@).contains(#[trigger] keyed_views(out@)[i]),
{
    let ghost orig = keyed_views(items@);
    let mut src = items;
    let mut out: Vec<(Vec<char>, String)> = Vec::new();
    let ghost mut done: int = 0;
    proof {
        assert forall|k: Seq<char>| #[trigger] with_key(keyed_views(out@), k) == with_key(orig.take(0), k) by {
            assert(keyed_views(out@) =~= orig.take(0));
        }
    }
    while src.len() > 0
        invariant
            0 <= done <= orig.len(),
            orig.len() == items@.len(),
            out@.len() == done,
            keyed_views(src@) == orig.skip(done),
            keys_ascending(keyed_views(out@)),
            forall|k: Seq<char>| #[trigger] with_key(keyed_views(out@), k) == with_key(orig.take(done), k),
            forall|i: int| 0 <= i < out@.len() ==> orig.contains(#[trigger] keyed_views(out@)[i]),
        decreases src.len(),
    {
        let ghost src_before = src@;
        let e = src.remove(0);
        let ghost x = (e.0@, e.1@);
        proof {
            assert(keyed_views(src_before).len() == src_before.len());
            assert(orig.skip(done).len() == src_before.len());
            assert(done < orig.len());
            assert(keyed_views(src_before)[0] == x);
            assert(orig[done] == orig.skip(done)[0]);
            assert(src@ =~= src_before.remove(0));
            assert forall|i: int| 0 <= i < src@.len() implies #[trigger] keyed_views(src@)[i] == orig.skip(done + 1)[i] by {
                assert(src@[i] == src_before[i + 1]);
                assert(keyed_views(src_before)[i + 1] == orig.skip(done)[i + 1]);
            }
            assert(keyed_views(src@) =~= orig.skip(done + 1));
        }
        let mut p: usize = 0;
        loop
            invariant
                p <= out.len(),
                x == (e.0@, e.1@),
                forall|j: int| 0 <= j < p ==> lex_le(#[trigger] keyed_views(out@)[j].0, x.0),
            ensures
                p <= out.len(),
                forall|j: int| 0 <= j < p ==> lex_le(#[trigger] keyed_views(out@)[j].0, x.0),
                p < out.len() ==> !lex_le(keyed_views(out@)[p as int].0, x.0),
            decreases out.len() - p,
        {
            if p >= out.len() {
                break;
            }
            if !lex_le_exec(&out[p].0, &e.0) {
                break;
            }
            p += 1;
        }
        let ghost ov = keyed_views(out@);
        proof {
            assert forall|j: int| p <= j < ov.len() implies !lex_le(#[trigger] ov[j].0, x.0) by {
                if j > p && lex_le(ov[j].0, x.0) {
                    lemma_lex_trans_at(ov[p as int].0, ov[j].0, x.0);
                }
            }
            lemma_insert_keyed(ov, p as int, x);
        }
        out.insert(p, e);
        proof {
            assert(keyed_views(out@) =~= ov.insert(p as int, x));
            assert(orig[done] == x);
            assert forall|i: int| 0 <= i < out@.len() implies orig.contains(#[trigger] keyed_views(out@)[i]) by {
                if i < p {
                    assert(keyed_views(out@)[i] == ov[i]);
                } else if i > p {
                    assert(keyed_views(out@)[i] == ov[i - 1]);
                }
            }
            assert(orig.take(done + 1) =~= orig.take(done) + seq![x]);
            assert forall|k: Seq<char>| #[trigger] with_key(keyed_views(out@), k) == with_key(orig.take(done + 1), k) by {
                lemma_with_key_append(orig.take(done), seq![x], k);
            }
            done = done + 1;
        }
    }
    proof {
        assert(orig.take(done) =~= orig);
    }
    out
}

proof fn lemma_lex_trans_at(a: Seq<char>, b: Seq<char>, c: Seq<char>)
    requires
        lex_le(a, b),
        lex_le(b, c),
    ensures
        lex_le(a, c),
{
    crate::channel::lemma_lex_trans(a, b, c, 0);
}

/// The commands that Tab completes, in the order offered.
pub open spec fn command_list() -> Seq<Seq<char>> {
    seq![
        "/accept"@, "/admin"@, "/ame"@, "/amsg"@, "/away"@, "/back"@,
        "/ban"@, "/bouncer"@, "/botserv"@, "/chanserv"@, "/clear"@, "/close"@,
        "/ctcp"@, "/cycle"@, "/dehalfop"@, "/deop"@, "/devoice"@, "/describe"@,
        "/disconnect"@, "/echo"@, "/grep"@, "/halfop"@, "/history"@, "/hop"@,
        "/hostserv"@, "/ignore"@, "/info"@, "/invite"@, "/ison"@, "/join"@,
        "/kick"@, "/kickban"@, "/label"@, "/knock"@, "/lastlog"@, "/links"@,
        "/list"@, "/lusers"@, "/me"@, "/markread"@, "/metadata"@, "/memoserv"@,
        "/mode"@, "/monitor"@, "/motd"@, "/msg"@, "/names"@, "/nick"@,
        "/nickserv"@, "/notice"@, "/onotice"@, "/op"@, "/operserv"@, "/part"@,
        "/persistence"@, "/perform"@, "/ping"@, "/query"@, "/quote"@, "/quit"@,
        "/raw"@, "/react"@, "/redact"@, "/register"@, "/relocate"@, "/rename"@,
        "/reconnect"@, "/rejoin"@, "/reply"@, "/say"@, "/search"@, "/server"@,
        "/setname"@, "/settings"@, "/silence"@, "/slap"@, "/stats"@, "/sversion"@,
        "/time"@, "/topic"@, "/token"@, "/trace"@, "/typing"@, "/umode"@,
        "/unban"@, "/unignore"@, "/userhost"@, "/version"@, "/verify"@, "/webpush"@,
        "/voice"@, "/wallops"@, "/who"@, "/whois"@, "/whowas"@,
    ]
}

/// Whether `c` is offered for the typed `prefix` (compared ASCII
/// case-insensitively: the commands are lower case).
pub open spec fn command_offered(prefix: Seq<char>, c: Seq<char>) -> bool {
    starts_with(c, ascii_lower_seq(prefix))
}

/// The commands that complete `prefix`.
pub open spec fn spec_command_completions(prefix: Seq<char>) -> Seq<Seq<char>> {
    command_list().filter(|c: Seq<char>| command_offered(prefix, c))
}

/// Commands completing a typed `/prefix`, in list order.
pub fn find_command_completions(prefix: &str) -> (r: Vec<String>)
    ensures
        views(r@) == spec_command_completions(prefix@),
{
    let names: [&str; 95] = [
        "/accept", "/admin", "/ame", "/amsg", "/away", "/back", "/ban", "/bouncer",
        "/botserv", "/chanserv", "/clear", "/close", "/ctcp", "/cycle", "/dehalfop", "/deop",
        "/devoice", "/describe", "/disconnect", "/echo", "/grep", "/halfop", "/history", "/hop",
        "/hostserv", "/ignore", "/info", "/invite", "/ison", "/join", "/kick", "/kickban",
        "/label", "/knock", "/lastlog", "/links", "/list", "/lusers", "/me", "/markread",
        "/metadata", "/memoserv", "/mode", "/monitor", "/motd", "/msg", "/names", "/nick",
        "/nickserv", "/notice", "/onotice", "/op", "/operserv", "/part", "/persistence", "/perform",
        "/ping", "/query", "/quote", "/quit", "/raw", "/react", "/redact", "/register",
        "/relocate", "/rename", "/reconnect", "/rejoin", "/reply", "/say", "/search", "/server",
        "/setname", "/settings", "/silence", "/slap", "/stats", "/sversion", "/time", "/topic",
        "/token", "/trace", "/typing", "/umode", "/unban", "/unignore", "/userhost", "/version",
        "/verify", "/webpush", "/voice", "/wallops", "/who", "/whois", "/whowas",
    ];
    let ghost list = command_list();
    assert(names@.len() == 95);
    assert forall|i: int| 0 <= i < 95 implies (#[trigger] names@[i])@ == list[i] by {}
    let p = ascii_lower_vec(&chars_of(prefix));
    let ghost pred = |c: Seq<char>| command_offered(prefix@, c);
    let mut out: Vec<String> = Vec::new();
    let mut i: usize = 0;
    while i < 95
        invariant
            i <= 95,
            names@.len() == 95,
            list == command_list(),
            list.len() == 95,
            p@ == ascii_lower_seq(prefix@),
            pred == (|c: Seq<char>| command_offered(prefix@, c)),
            forall|j: int| 0 <= j < 95 ==> (#[trigger] names@[j])@ == list[j],
            views(out@) == list.take(i as int).filter(pred),
        decreases 95 - i,
    {
        let c = chars_of(names[i]);
        let hit = starts_with_at(&c, 0, &p);
        proof {
            assert(c@.subrange(0, c@.len() as int) =~= c@);
            assert(list.take(i as int + 1).drop_last() =~= list.take(i as int));
            assert(list.take(i as int + 1).last() == list[i as int]);
            reveal_with_fuel(Seq::filter, 1);
        }
        if hit {
            out.push(to_string(names[i]));
            proof {
                assert(views(out@) =~= list.take(i as int).filter(pred).push(list[i as int]));
            }
        }
        i += 1;
    }
    proof {
        assert(list.take(95) =~= list);
    }
    out
}

/// Entries keyed by the lower-cased text.
pub open spec fn lower_keyed(ns: Seq<Seq<char>>) -> Seq<(Seq<char>, Seq<char>)> {
    ns.map_values(|n: Seq<char>| (unicode_lowercase(n), n))
}

/// The members' nicks.
pub open spec fn member_nicks(users: Seq<UserView>) -> Seq<Seq<char>> {
    users.map_values(|u: UserView| u.nick)
}

/// Whether a lower-cased nick is offered for the lower-cased prefix.
pub open spec fn nick_offered(prefix_lower: Seq<char>, e: (Seq<char>, Seq<char>)) -> bool {
    starts_with(e.0, prefix_lower)
}

/// The nicks completing `prefix` (compared lower-cased), in member order.
pub open spec fn nick_candidates(users: Seq<UserView>, prefix: Seq<char>) -> Seq<(Seq<char>, Seq<char>)> {
    lower_keyed(member_nicks(users)).filter(|e: (Seq<char>, Seq<char>)| nick_offered(unicode_lowercase(prefix), e))
}

/// The nicks of a channel completing `prefix`: those whose lower-cased
/// form starts with the lower-cased prefix, ordered by lower-cased nick
/// (stably). Without a channel there is nothing to complete.
pub open spec fn nick_completions_ok(r: Seq<Seq<char>>, users: Option<Seq<UserView>>, prefix: Seq<char>) -> bool {
    match users {
        Some(us) => stable_sorted_by_key(lower_keyed(r), nick_candidates(us, prefix)),
        None => r.len() == 0,
    }
}

/// The channel's members as the contracts see them.
pub open spec fn channel_users(channel: Option<&Channel>) -> Option<Seq<UserView>> {
    match channel {
        Some(c) => Some(c@.users),
        None => None,
    }
}

/// Nicks of the current channel completing `prefix`.
pub fn find_nick_completions(channel: Option<&Channel>, prefix: &str) -> (r: Vec<String>)
    ensures
        nick_completions_ok(views(r@), channel_users(channel), prefix@),
{
    let c = match channel {
        Some(c) => c,
        None => return Vec::new(),
    };
    let nicks = c.nicks();
    let pl = chars_of(to_lowercase(prefix).as_str());
    let ghost users = c@.users;
    let ghost pred = |e: (Seq<char>, Seq<char>)| nick_offered(unicode_lowercase(prefix@), e);
    let mut items: Vec<(Vec<char>, String)> = Vec::new();
    let mut i: usize = 0;
    while i < nicks.len()
        invariant
            i <= nicks.len(),
            users == c@.users,
            views(nicks@) == member_nicks(users),
            pl@ == unicode_lowercase(prefix@),
            pred == (|e: (Seq<char>, Seq<char>)| nick_offered(unicode_lowercase(prefix@), e)),
            keyed_views(items@) == lower_keyed(member_nicks(users).take(i as int)).filter(pred),
        decreases nicks.len() - i,
    {
        let nick = nicks[i].clone();
        let key = chars_of(to_lowercase(nick.as_str()).as_str());
        let hit = starts_with_at(&key, 0, &pl);
        proof {
            assert(key@.subrange(0, key@.len() as int) =~= key@);
            let before = lower_keyed(member_nicks(users).take(i as int));
            let after = lower_keyed(member_nicks(users).take(i as int + 1));
            assert(views(nicks@)[i as int] == nick@);
            assert(after.drop_last() =~= before);
            assert(after.last() == (key@, nick@));
            reveal_with_fuel(Seq::filter, 1);
        }
        if hit {
            let ghost items_before = items@;
            items.push((key, nick));
            proof {
                assert(keyed_views(items@) =~= keyed_views(items_before).push((key@, nick@)));
            }
        }
        i += 1;
    }
    proof {
        assert(member_nicks(users).take(nicks.len() as int) =~= member_nicks(users));
        assert forall|j: int| 0 <= j < items@.len() implies (#[trigger] keyed_views(items@)[j]).0 == unicode_lowercase(keyed_views(items@)[j].1) by {
            let kv = keyed_views(items@);
            let all = lower_keyed(member_nicks(users));
            assert(kv.contains(kv[j]));
            all.lemma_filter_contains_rev(pred, kv[j]);
        }
    }
    let sorted = sort_by_key_stable(items);
    let mut out: Vec<String> = Vec::new();
    let mut k: usize = 0;
    while k < sorted.len()
        invariant
            k <= sorted.len(),
            forall|j: int| 0 <= j < sorted@.len() ==> keyed_views(items@).contains(#[trigger] keyed_views(sorted@)[j]),
            forall|j: int| 0 <= j < items@.len() ==> (#[trigger] keyed_views(items@)[j]).0 == unicode_lowercase(keyed_views(items@)[j].1),
            lower_keyed(views(out@)) == keyed_views(sorted@).take(k as int),
        decreases sorted.len() - k,
    {
        let ghost ks = keyed_views(sorted@);
        proof {
            let kv = keyed_views(items@);
            assert(kv.contains(ks[k as int]));
            let j = choose|j: int| 0 <= j < kv.len() && kv[j] == ks[k as int];
            assert(kv[j].0 == unicode_lowercase(kv[j].1));
            assert(ks[k as int] == (unicode_lowercase(ks[k as int].1), ks[k as int].1));
        }
        let ghost out_before = out@;
        out.push(sorted[k].1.clone());
        proof {
            assert(views(out@) =~= views(out_before).push(ks[k as int].1));
            assert(lower_keyed(views(out@)) =~= lower_keyed(views(out_before)).push(
                (unicode_lowercase(ks[k as int].1), ks[k as int].1)));
            assert(ks.take(k as int + 1) =~= ks.take(k as int).push(ks[k as int]));
            assert(lower_keyed(views(out@)) =~= ks.take(k as int + 1));
        }
        k += 1;
    }
    proof {
        assert(keyed_views(sorted@).take(sorted@.len() as int) =~= keyed_views(sorted@));
        assert(lower_keyed(member_nicks(users)).filter(pred) == nick_candidates(users, prefix@));
    }
    out
}

/// Index just past the last whitespace character of `s[..n]`, or 0: where
/// the word being typed starts.
pub open spec fn word_start(s: Seq<char>, n: int) -> int
    decreases n,
{
    if n <= 0 {
        0
    } else if is_ws(s[n - 1]) {
        n
    } else {
        word_start(s, n - 1)
    }
}

/// A command being typed: it starts with `/` and holds no whitespace.
pub open spec fn is_command_input(s: Seq<char>) -> bool {
    s.len() > 0 && s[0] == '/' && forall|i: int| 0 <= i < s.len() ==> !is_ws(#[trigger] s[i])
}

/// What Tab completes in `input`: the prefix typed, the text kept before
/// it, and the text put after a candidate (`": "` for a nick that starts
/// the line, else one space).
pub open spec fn completion_parts(input: Seq<char>) -> (Seq<char>, Seq<char>, Seq<char>) {
    if is_command_input(input) {
        (input, Seq::empty(), " "@)
    } else {
        let st = word_start(input, input.len() as int);
        (input.subrange(st, input.len() as int), input.subrange(0, st), if st == 0 { ": "@ } else { " "@ })
    }
}

/// Whether `ms` are the candidates for `input`: commands for a command
/// being typed, else nicks of the channel.
pub open spec fn candidates_ok(ms: Seq<Seq<char>>, input: Seq<char>, users: Option<Seq<UserView>>) -> bool {
    if is_command_input(input) {
        ms == spec_command_completions(input)
    } else {
        nick_completions_ok(ms, users, completion_parts(input).0)
    }
}

fn word_start_exec(v: &Vec<char>) -> (r: usize)
    ensures
        r as int == word_start(v@, v@.len() as int),
        r <= v.len(),
{
    let mut n: usize = v.len();
    while n > 0 && !is_whitespace(v[n - 1])
        invariant
            n <= v.len(),
            word_start(v@, v@.len() as int) == word_start(v@, n as int),
        decreases n,
    {
        n -= 1;
    }
    n
}

fn any_whitespace(v: &Vec<char>) -> (r: bool)
    ensures
        r == exists|i: int| 0 <= i < v@.len() && is_ws(#[trigger] v@[i]),
{
    let mut j: usize = 0;
    while j < v.len()
        invariant
            j <= v.len(),
            forall|k: int| 0 <= k < j ==> !is_ws(#[trigger] v@[k]),
        decreases v.len() - j,
    {
        if is_whitespace(v[j]) {
            return true;
        }
        j += 1;
    }
    false
}

fn concat3(a: &str, b: &str, c: &str) -> (r: String)
    ensures
        r@ == a@ + b@ + c@,
{
    let mut r = to_string(a);
    push_str(&mut r, b);
    push_str(&mut r, c);
    r
}

/// Tab in the input line. A completion in progress moves to its next
/// candidate (wrapping). Otherwise the word being typed is completed with
/// its first candidate, and the candidates are kept for the next Tab;
/// with no word or no candidate nothing changes.
pub fn handle_tab_completion(input_text: &mut String, tab_completion: &mut Option<TabCompletion>, channel: Option<&Channel>)
    requires
        *old(tab_completion) matches Some(c) ==> c.index < usize::MAX,
    ensures
        match *old(tab_completion) {
            Some(c) => if c.matches.len() == 0 {
                &&& *final(tab_completion) == *old(tab_completion)
                &&& final(input_text)@ == old(input_text)@
            } else {
                let i = ((c.index + 1) % (c.matches.len() as int)) as usize;
                &&& *final(tab_completion) matches Some(t)
                &&& t.index == i && t.matches == c.matches && t.base == c.base && t.suffix == c.suffix
                &&& final(input_text)@ == c.base@ + c.matches@[i as int]@ + c.suffix@
            },
            None => {
                let (prefix, base, suffix) = completion_parts(old(input_text)@);
                match *final(tab_completion) {
                    None => {
                        &&& final(input_text)@ == old(input_text)@
                        &&& (prefix.len() == 0 || candidates_ok(Seq::empty(), old(input_text)@, channel_users(channel)))
                    },
                    Some(t) => {
                        &&& prefix.len() > 0
                        &&& t.matches.len() > 0
                        &&& candidates_ok(views(t.matches@), old(input_text)@, channel_users(channel))
                        &&& t.index == 0 && t.base@ == base && t.suffix@ == suffix
                        &&& final(input_text)@ == base + t.matches@[0]@ + suffix
                    },
                }
            },
        },
{
    match tab_completion.take() {
        Some(c) => {
            if c.matches.len() == 0 {
                *tab_completion = Some(c);
                return;
            }
            let i = (c.index + 1) % c.matches.len();
            let text = concat3(c.base.as_str(), c.matches[i].as_str(), c.suffix.as_str());
            *input_text = text;
            *tab_completion = Some(TabCompletion { matches: c.matches, index: i, base: c.base, suffix: c.suffix });
            return;
        },
        None => {},
    }
    let v = chars_of(input_text.as_str());
    let command = v.len() > 0 && v[0] == '/' && !any_whitespace(&v);
    assert(command == is_command_input(v@));
    let (prefix, matches, base, suffix) = if command {
        (to_string(input_text.as_str()), find_command_completions(input_text.as_str()), String::new(), to_string(" "))
    } else {
        let start = word_start_exec(&v);
        let prefix = string_from_range(&v, start, v.len());
        let matches = find_nick_completions(channel, prefix.as_str());
        let suffix = if start == 0 { to_string(": ") } else { to_string(" ") };
        (prefix, matches, string_from_range(&v, 0, start), suffix)
    };
    if prefix.as_str().is_empty() || matches.len() == 0 {
        proof {
            if prefix@.len() > 0 {
                assert(views(matches@) =~= Seq::<Seq<char>>::empty());
            }
        }
        return;
    }
    let text = concat3(base.as_str(), matches[0].as_str(), suffix.as_str());
    *input_text = text;
    *tab_completion = Some(TabCompletion { matches, index: 0, base, suffix });
}

/// Names keyed by their identity under the network's case mapping.
pub open spec fn net_keyed(support: NetworkSupport, ns: Seq<Seq<char>>) -> Seq<(Seq<char>, Seq<char>)> {
    ns.map_values(|n: Seq<char>| (spec_network_canonicalize(support.case_mapping, support.channel_types@, n), n))
}

/// The characters of each tab (`None` is the server tab).
pub open spec fn tab_views(tabs: Seq<Option<String>>) -> Seq<Option<Seq<char>>> {
    tabs.map_values(|t: Option<String>| opt_view(t))
}

/// The names of the channel and query tabs, server tab skipped.
pub open spec fn named_tabs(tabs: Seq<Option<Seq<char>>>) -> Seq<Seq<char>> {
    tabs.skip(1).map_values(|t: Option<Seq<char>>| t.unwrap())
}

/// The tab order: the server tab first, then every name, ordered (stably)
/// by its identity under the network's case mapping.
pub open spec fn tabs_ordered(support: NetworkSupport, tabs: Seq<Option<Seq<char>>>, names: Seq<Seq<char>>) -> bool {
    &&& tabs.len() == names.len() + 1
    &&& tabs[0] is None
    &&& forall|i: int| 1 <= i < tabs.len() ==> (#[trigger] tabs[i]) is Some
    &&& stable_sorted_by_key(net_keyed(support, named_tabs(tabs)), net_keyed(support, names))
}

/// The tabs in Ctrl+Tab order.
pub fn ordered_tabs(support: &NetworkSupport, names: &[String]) -> (r: Vec<Option<String>>)
    ensures
        tabs_ordered(*support, tab_views(r@), views(names@)),
{
    let ghost keyed = net_keyed(*support, views(names@));
    let mut items: Vec<(Vec<char>, String)> = Vec::new();
    let mut i: usize = 0;
    while i < names.len()
        invariant
            i <= names.len(),
            keyed == net_keyed(*support, views(names@)),
            keyed_views(items@) == keyed.take(i as int),
        decreases names.len() - i,
    {
        let key = chars_of(support.canonicalize(names[i].as_str()).as_str());
        let name = names[i].clone();
        let ghost items_before = items@;
        items.push((key, name));
        proof {
            assert(views(names@)[i as int] == names@[i as int]@);
            assert(keyed[i as int] == (key@, name@));
            assert(keyed_views(items@) =~= keyed_views(items_before).push((key@, name@)));
            assert(keyed.take(i as int + 1) =~= keyed.take(i as int).push(keyed[i as int]));
        }
        i += 1;
    }
    assert(keyed.take(i as int) =~= keyed);
    assert(keyed_views(items@) == keyed);
    let sorted = sort_by_key_stable(items);
    let mut r: Vec<Option<String>> = Vec::new();
    r.push(None);
    let mut k: usize = 0;
    while k < sorted.len()
        invariant
            k <= sorted.len(),
            r@.len() == k + 1,
            r@[0] is None,
            keyed == net_keyed(*support, views(names@)),
            keyed.len() == names@.len(),
            forall|j: int| 1 <= j < r@.len() ==> (#[trigger] r@[j]) is Some,
            forall|j: int| 0 <= j < sorted@.len() ==> keyed.contains(#[trigger] keyed_views(sorted@)[j]),
            net_keyed(*support, named_tabs(tab_views(r@))) == keyed_views(sorted@).take(k as int),
        decreases sorted.len() - k,
    {
        let ghost ks = keyed_views(sorted@);
        let ghost r_before = r@;
        proof {
            assert(keyed.contains(ks[k as int]));
            let j = choose|j: int| 0 <= j < keyed.len() && keyed[j] == ks[k as int];
            assert(keyed[j] == (spec_network_canonicalize(support.case_mapping, support.channel_types@, views(names@)[j]), views(names@)[j]));
            assert(ks[k as int] == (spec_network_canonicalize(support.case_mapping, support.channel_types@, ks[k as int].1), ks[k as int].1));
        }
        r.push(Some(sorted[k].1.clone()));
        proof {
            assert(named_tabs(tab_views(r@)) =~= named_tabs(tab_views(r_before)).push(ks[k as int].1));
            assert(ks.take(k as int + 1) =~= ks.take(k as int).push(ks[k as int]));
            assert(net_keyed(*support, named_tabs(tab_views(r@))) =~= ks.take(k as int + 1));
        }
        k += 1;
    }
    assert(keyed_views(sorted@).take(k as int) =~= keyed_views(sorted@));
    proof {
        let tv = tab_views(r@);
        assert(tv[0] is None);
        assert forall|i: int| 1 <= i < tv.len() implies (#[trigger] tv[i]) is Some by {
            assert(r@[i] is Some);
        }
        assert(tv.len() == views(names@).len() + 1);
        assert(stable_sorted_by_key(keyed_views(sorted@), keyed));
        assert(net_keyed(*support, named_tabs(tv)) == keyed_views(sorted@));
    }
    r
}

/// Whether a tab shows `current` (the server tab shows no target).
pub open spec fn tab_shows(support: NetworkSupport, tab: Option<Seq<char>>, current: Option<Seq<char>>) -> bool {
    match (tab, current) {
        (None, None) => true,
        (Some(l), Some(r)) => spec_network_canonicalize(support.case_mapping, support.channel_types@, l)
            == spec_network_canonicalize(support.case_mapping, support.channel_types@, r),
        _ => false,
    }
}

/// The index of the first tab at or after `i` showing `current`, or 0.
pub open spec fn current_tab_index(support: NetworkSupport, tabs: Seq<Option<Seq<char>>>, current: Option<Seq<char>>, i: int) -> int
    decreases tabs.len() - i,
{
    if i < 0 || i >= tabs.len() {
        0
    } else if tab_shows(support, tabs[i], current) {
        i
    } else {
        current_tab_index(support, tabs, current, i + 1)
    }
}

/// The neighbour of tab `cur` among `n` tabs, wrapping around.
pub open spec fn neighbour_tab(cur: int, n: int, reverse: bool) -> int {
    if reverse {
        if cur == 0 { n - 1 } else { cur - 1 }
    } else {
        (cur + 1) % n
    }
}

/// The characters of an optional string slice.
pub open spec fn opt_str_view(o: Option<&str>) -> Option<Seq<char>> {
    match o {
        Some(s) => Some(s@),
        None => None,
    }
}

fn tab_shows_exec(support: &NetworkSupport, tab: &Option<String>, current: Option<&str>) -> (r: bool)
    ensures
        r == tab_shows(*support, opt_view(*tab), opt_str_view(current)),
{
    match (tab, current) {
        (None, None) => true,
        (Some(l), Some(c)) => support.identifiers_equal(l.as_str(), c),
        _ => false,
    }
}

/// Ctrl+Tab (or Ctrl+Shift+Tab with `reverse`): the tab to select after
/// the one showing `current` (the first tab if none does), or `None` when
/// there are no tabs.
pub fn cycle_tab(support: &NetworkSupport, tabs: &Vec<Option<String>>, current: Option<&str>, reverse: bool)
    -> (r: Option<Option<String>>)
    ensures
        tabs@.len() == 0 ==> r is None,
        tabs@.len() > 0 ==> r is Some && opt_view(r.unwrap()) == tab_views(tabs@)[neighbour_tab(
            current_tab_index(*support, tab_views(tabs@), opt_str_view(current), 0),
            tabs@.len() as int,
            reverse,
        )],
{
    if tabs.len() == 0 {
        return None;
    }
    let ghost tv = tab_views(tabs@);
    let mut cur: usize = 0;
    while cur < tabs.len() && !tab_shows_exec(support, &tabs[cur], current)
        invariant
            cur <= tabs.len(),
            tv == tab_views(tabs@),
            current_tab_index(*support, tv, opt_str_view(current), 0)
                == current_tab_index(*support, tv, opt_str_view(current), cur as int),
        decreases tabs.len() - cur,
    {
        cur += 1;
    }
    let cur = if cur == tabs.len() { 0 } else { cur };
    let next = if reverse {
        if cur == 0 { tabs.len() - 1 } else { cur - 1 }
    } else {
        (cur + 1) % tabs.len()
    };
    Some(clone_opt(&tabs[next]))
}

} // verus!

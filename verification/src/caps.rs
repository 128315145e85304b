//! IRCv3 capability negotiation: which capabilities are enabled after each
//! CAP reply, what the server's values say, and how CAP REQ lines are cut.

use vstd::prelude::*;

use crate::commands::{before_char, split_char, split_on, strip_leading};
use crate::modes::joined;
use crate::network::{parse_usize, prefix_run, prefix_run_exec, strip_lit, strip_lit_exec, NetworkSupport};
use crate::numfmt::parse_unsigned_range;
use crate::session::{utf8_len_capped, utf8_len_seq};
use crate::text::{
    ascii_lower_seq, ascii_lower_vec, chars_eq, chars_of, eq_ignore_ascii_case, find_char, find_from, push_str,
    range_eq_ignore_ascii_case, split_whitespace, string_from_chars, string_from_range, sub_chars, views, words,
};

verus! {

/// `CAP REQ :` before the requested names.
pub const CAP_REQ_OVERHEAD: usize = 9;

/// Requested names grouped into CAP REQ lines, greedily: a name joins the
/// current line while `CAP REQ :` and the space-separated names stay within
/// 510 bytes; a name that does not fit starts a new line (a single name
/// longer than a line still gets one of its own). `cur` is the line being
/// filled and `cur_len` its length so far.
pub open spec fn groups_from(caps: Seq<Seq<char>>, i: int, cur: Seq<Seq<char>>, cur_len: int) -> Seq<Seq<Seq<char>>>
    decreases caps.len() - i,
{
    if i < 0 || i >= caps.len() {
        if cur.len() == 0 { Seq::empty() } else { seq![cur] }
    } else {
        let added = (if cur.len() > 0 { 1int } else { 0int }) + utf8_len_seq(caps[i]);
        if cur_len + added > 510 && cur.len() > 0 {
            seq![cur] + groups_from(caps, i + 1, seq![caps[i]], CAP_REQ_OVERHEAD + utf8_len_seq(caps[i]))
        } else {
            groups_from(caps, i + 1, cur.push(caps[i]), cur_len + added)
        }
    }
}

/// The CAP REQ lines for `caps`, as groups of names.
pub open spec fn cap_groups(caps: Seq<Seq<char>>) -> Seq<Seq<Seq<char>>> {
    groups_from(caps, 0, Seq::empty(), CAP_REQ_OVERHEAD as int)
}

/// The payload of each CAP REQ line: its names joined by spaces.
pub open spec fn spec_cap_request_lines(caps: Seq<Seq<char>>) -> Seq<Seq<char>> {
    cap_groups(caps).map_values(|g: Seq<Seq<char>>| joined(g))
}

proof fn lemma_groups_end(caps: Seq<Seq<char>>, i: int, cur: Seq<Seq<char>>, cur_len: int)
    requires
        i >= caps.len(),
    ensures
        groups_from(caps, i, cur, cur_len) == (if cur.len() == 0 { Seq::<Seq<Seq<char>>>::empty() } else { seq![cur] }),
{
}

proof fn lemma_groups_flush(caps: Seq<Seq<char>>, i: int, cur: Seq<Seq<char>>, cur_len: int)
    requires
        0 <= i < caps.len(),
        cur.len() > 0,
        cur_len + 1 + utf8_len_seq(caps[i]) > 510,
    ensures
        groups_from(caps, i, cur, cur_len)
            == seq![cur] + groups_from(caps, i + 1, seq![caps[i]], CAP_REQ_OVERHEAD + utf8_len_seq(caps[i])),
{
}

proof fn lemma_groups_join(caps: Seq<Seq<char>>, i: int, cur: Seq<Seq<char>>, cur_len: int)
    requires
        0 <= i < caps.len(),
        cur.len() == 0 || cur_len + 1 + utf8_len_seq(caps[i]) <= 510,
    ensures
        groups_from(caps, i, cur, cur_len) == groups_from(caps, i + 1, cur.push(caps[i]),
            cur_len + (if cur.len() > 0 { 1int } else { 0int }) + utf8_len_seq(caps[i])),
{
}

proof fn lemma_joined_push(g: Seq<Seq<char>>, x: Seq<char>)
    ensures
        joined(g.push(x)) == if g.len() == 0 { x } else { joined(g) + seq![' '] + x },
{
    assert(g.push(x).drop_last() =~= g);
    if g.len() == 0 {
        assert(g.push(x).len() == 1);
        assert(g.push(x)[0] == x);
    }
}

proof fn lemma_utf8_append(a: Seq<char>, b: Seq<char>)
    ensures
        utf8_len_seq(a + b) == utf8_len_seq(a) + utf8_len_seq(b),
    decreases b.len(),
{
    if b.len() == 0 {
        assert(a + b =~= a);
    } else {
        lemma_utf8_append(a, b.drop_last());
        assert((a + b).drop_last() =~= a + b.drop_last());
        assert((a + b).last() == b.last());
    }
}

proof fn lemma_utf8_space()
    ensures
        utf8_len_seq(seq![' ']) == 1,
{
    assert(seq![' '].drop_last() =~= Seq::<char>::empty());
    assert(seq![' '].last() == ' ');
    assert((' ' as u32) == 32);
    assert(crate::session::utf8_len(' ') == 1);
    assert(utf8_len_seq(Seq::<char>::empty()) == 0);
}

proof fn lemma_map_joined_append(a: Seq<Seq<Seq<char>>>, b: Seq<Seq<Seq<char>>>)
    ensures
        (a + b).map_values(|g: Seq<Seq<char>>| joined(g))
            == a.map_values(|g: Seq<Seq<char>>| joined(g)) + b.map_values(|g: Seq<Seq<char>>| joined(g)),
{
    assert((a + b).map_values(|g: Seq<Seq<char>>| joined(g))
        =~= a.map_values(|g: Seq<Seq<char>>| joined(g)) + b.map_values(|g: Seq<Seq<char>>| joined(g)));
}

/// Split capability names into CAP REQ payloads (see `groups_from`).
pub fn cap_request_lines(caps: &[String]) -> (r: Vec<String>)
    ensures
        views(r@) == spec_cap_request_lines(views(caps@)),
{
    let ghost cs = views(caps@);
    let ghost total = spec_cap_request_lines(cs);
    let mut out: Vec<String> = Vec::new();
    let mut chunk = String::new();
    let mut count: usize = 0;
    let mut fits = true;
    let mut chunk_len: usize = CAP_REQ_OVERHEAD;
    let ghost mut cur: Seq<Seq<char>> = Seq::empty();
    let ghost mut glen: int = CAP_REQ_OVERHEAD as int;
    let mut i: usize = 0;
    proof {
        assert(views(out@) =~= Seq::<Seq<char>>::empty());
        assert(Seq::<Seq<char>>::empty() + total =~= total);
    }
    while i < caps.len()
        invariant
            i <= caps.len(),
            cs == views(caps@),
            cs.len() == caps.len(),
            total == spec_cap_request_lines(cs),
            count == cur.len(),
            count <= i,
            chunk@ == joined(cur),
            glen == CAP_REQ_OVERHEAD + (if cur.len() == 0 { 0 } else { utf8_len_seq(joined(cur)) }),
            fits == (glen <= 510),
            fits ==> chunk_len == glen,
            views(out@) + groups_from(cs, i as int, cur, glen).map_values(|g: Seq<Seq<char>>| joined(g)) == total,
        decreases caps.len() - i,
    {
        let cap = caps[i].as_str();
        let ghost x = cs[i as int];
        assert(x == cap@);
        let capped = utf8_len_capped(cap, 600);
        let flush = count > 0 && match capped {
            Some(n) => !fits || chunk_len + 1 + n > 510,
            None => true,
        };
        if flush {
            proof {
                lemma_groups_flush(cs, i as int, cur, glen);
                lemma_map_joined_append(seq![cur], groups_from(cs, i as int + 1, seq![x], CAP_REQ_OVERHEAD + utf8_len_seq(x)));
                assert(seq![cur].map_values(|g: Seq<Seq<char>>| joined(g)) =~= seq![joined(cur)]);
            }
            let ghost out_before = views(out@);
            out.push(chunk);
            proof {
                assert(views(out@) =~= out_before.push(joined(cur)));
                assert(out_before.push(joined(cur)) + groups_from(cs, i as int + 1, seq![x], CAP_REQ_OVERHEAD + utf8_len_seq(x)).map_values(|g: Seq<Seq<char>>| joined(g))
                    =~= out_before + (seq![joined(cur)] + groups_from(cs, i as int + 1, seq![x], CAP_REQ_OVERHEAD + utf8_len_seq(x)).map_values(|g: Seq<Seq<char>>| joined(g))));
                lemma_joined_push(Seq::empty(), x);
                assert(Seq::<Seq<char>>::empty().push(x) =~= seq![x]);
                cur = seq![x];
                glen = CAP_REQ_OVERHEAD + utf8_len_seq(x);
            }
            chunk = String::new();
            push_str(&mut chunk, cap);
            count = 1;
            match capped {
                Some(n) => {
                    fits = n <= 501;
                    if fits {
                        chunk_len = CAP_REQ_OVERHEAD + n;
                    }
                },
                None => {
                    fits = false;
                },
            }
        } else {
            proof {
                lemma_groups_join(cs, i as int, cur, glen);
                lemma_joined_push(cur, x);
                if cur.len() > 0 {
                    lemma_utf8_append(joined(cur), seq![' ']);
                    lemma_utf8_append(joined(cur) + seq![' '], x);
                    lemma_utf8_space();
                }
                let added = (if cur.len() > 0 { 1int } else { 0int }) + utf8_len_seq(x);
                glen = glen + added;
                cur = cur.push(x);
            }
            if count > 0 {
                push_str(&mut chunk, " ");
                proof { reveal_strlit(" "); }
            }
            push_str(&mut chunk, cap);
            match capped {
                Some(n) => {
                    if count == 0 {
                        fits = n <= 501;
                        if fits {
                            chunk_len = CAP_REQ_OVERHEAD + n;
                        }
                    } else {
                        chunk_len = chunk_len + 1 + n;
                    }
                },
                None => {
                    fits = false;
                },
            }
            count += 1;
        }
        i += 1;
    }
    proof {
        lemma_groups_end(cs, i as int, cur, glen);
    }
    if count > 0 {
        let ghost out_before = views(out@);
        out.push(chunk);
        proof {
            assert(views(out@) =~= out_before.push(joined(cur)));
            assert(seq![cur].map_values(|g: Seq<Seq<char>>| joined(g)) =~= seq![joined(cur)]);
            assert(out_before + seq![joined(cur)] =~= out_before.push(joined(cur)));
        }
    } else {
        proof {
            assert(views(out@) + Seq::<Seq<Seq<char>>>::empty().map_values(|g: Seq<Seq<char>>| joined(g)) =~= views(out@));
        }
    }
    out
}

/// The names of `gs`, group after group.
pub open spec fn flatten_groups(gs: Seq<Seq<Seq<char>>>) -> Seq<Seq<char>>
    decreases gs.len(),
{
    if gs.len() == 0 {
        Seq::empty()
    } else {
        flatten_groups(gs.drop_last()) + gs.last()
    }
}

/// A CAP REQ line is sound: it names something, and it fits in 510 bytes
/// unless it is a single name too long for any line.
pub open spec fn group_fits(g: Seq<Seq<char>>) -> bool {
    g.len() > 0 && (g.len() == 1 || CAP_REQ_OVERHEAD + utf8_len_seq(joined(g)) <= 510)
}

proof fn lemma_flatten_append(a: Seq<Seq<Seq<char>>>, b: Seq<Seq<Seq<char>>>)
    ensures
        flatten_groups(a + b) == flatten_groups(a) + flatten_groups(b),
    decreases b.len(),
{
    if b.len() == 0 {
        assert(a + b =~= a);
        assert(flatten_groups(a) + Seq::<Seq<char>>::empty() =~= flatten_groups(a));
    } else {
        lemma_flatten_append(a, b.drop_last());
        assert((a + b).drop_last() =~= a + b.drop_last());
        assert((a + b).last() == b.last());
        assert(flatten_groups(a) + flatten_groups(b.drop_last()) + b.last()
            =~= flatten_groups(a) + (flatten_groups(b.drop_last()) + b.last()));
    }
}

proof fn lemma_groups_from(caps: Seq<Seq<char>>, i: int, cur: Seq<Seq<char>>, cur_len: int)
    requires
        0 <= i <= caps.len(),
        cur_len == CAP_REQ_OVERHEAD + (if cur.len() == 0 { 0 } else { utf8_len_seq(joined(cur)) }),
        cur.len() <= 1 || cur_len <= 510,
    ensures
        flatten_groups(groups_from(caps, i, cur, cur_len)) == cur + caps.skip(i),
        forall|j: int| 0 <= j < groups_from(caps, i, cur, cur_len).len()
            ==> group_fits(#[trigger] groups_from(caps, i, cur, cur_len)[j]),
    decreases caps.len() - i,
{
    if i >= caps.len() {
        lemma_groups_end(caps, i, cur, cur_len);
        assert(caps.skip(i) =~= Seq::<Seq<char>>::empty());
        assert(cur + caps.skip(i) =~= cur);
        assert(flatten_groups(Seq::<Seq<Seq<char>>>::empty()) == Seq::<Seq<char>>::empty());
        if cur.len() > 0 {
            assert(seq![cur].drop_last() =~= Seq::<Seq<Seq<char>>>::empty());
            assert(Seq::<Seq<char>>::empty() + cur =~= cur);
            assert(flatten_groups(seq![cur]) == flatten_groups(seq![cur].drop_last()) + seq![cur].last());
        } else {
            assert(cur =~= Seq::<Seq<char>>::empty());
        }
    } else {
        let x = caps[i];
        let added = (if cur.len() > 0 { 1int } else { 0int }) + utf8_len_seq(x);
        if cur_len + added > 510 && cur.len() > 0 {
            lemma_groups_flush(caps, i, cur, cur_len);
            lemma_joined_push(Seq::empty(), x);
            assert(Seq::<Seq<char>>::empty().push(x) =~= seq![x]);
            let rest = groups_from(caps, i + 1, seq![x], CAP_REQ_OVERHEAD + utf8_len_seq(x));
            lemma_groups_from(caps, i + 1, seq![x], CAP_REQ_OVERHEAD + utf8_len_seq(x));
            lemma_flatten_append(seq![cur], rest);
            assert(seq![cur].drop_last() =~= Seq::<Seq<Seq<char>>>::empty());
            assert(Seq::<Seq<char>>::empty() + cur =~= cur);
            assert(flatten_groups(Seq::<Seq<Seq<char>>>::empty()) == Seq::<Seq<char>>::empty());
            assert(flatten_groups(seq![cur]) == flatten_groups(seq![cur].drop_last()) + seq![cur].last());
            assert(caps.skip(i) =~= seq![x] + caps.skip(i + 1));
            assert(cur + (seq![x] + caps.skip(i + 1)) =~= cur + caps.skip(i));
            let all = seq![cur] + rest;
            assert forall|j: int| 0 <= j < all.len() implies group_fits(#[trigger] all[j]) by {
                if j > 0 {
                    assert(all[j] == rest[j - 1]);
                }
            }
        } else {
            lemma_groups_join(caps, i, cur, cur_len);
            lemma_joined_push(cur, x);
            if cur.len() > 0 {
                lemma_utf8_append(joined(cur), seq![' ']);
                lemma_utf8_append(joined(cur) + seq![' '], x);
                lemma_utf8_space();
            }
            lemma_groups_from(caps, i + 1, cur.push(x), cur_len + added);
            assert(caps.skip(i) =~= seq![x] + caps.skip(i + 1));
            assert(cur.push(x) + caps.skip(i + 1) =~= cur + caps.skip(i));
        }
    }
}

/// CAP REQ lines keep every requested name, in order, and each line fits
/// in 510 bytes unless it holds a single name that fits in none.
pub proof fn lemma_cap_groups(caps: Seq<Seq<char>>)
    ensures
        flatten_groups(cap_groups(caps)) == caps,
        forall|j: int| 0 <= j < cap_groups(caps).len() ==> group_fits(#[trigger] cap_groups(caps)[j]),
{
    lemma_groups_from(caps, 0, Seq::empty(), CAP_REQ_OVERHEAD as int);
    assert(Seq::<Seq<char>>::empty() + caps.skip(0) =~= caps);
}

/// What capability negotiation has established, as the contracts see it.
pub struct CapView {
    /// Enabled capabilities, lower-cased, in the order first enabled.
    pub enabled: Seq<Seq<char>>,
    pub chathistory_enabled: bool,
    /// Page size the server allows for CHATHISTORY.
    pub chathistory_limit: Option<usize>,
    pub multiline_max_bytes: Option<usize>,
    pub multiline_max_lines: Option<usize>,
    /// Wanted capabilities the server newly offers (CAP NEW), in order.
    pub newly: Seq<Seq<char>>,
}

/// Whether a CAP subcommand is `word` (ASCII case-insensitively).
pub open spec fn sub_is(sub: Seq<char>, word: Seq<char>) -> bool {
    eq_ignore_ascii_case(sub, word)
}

/// A capability token without its leading `-`, `~` and `=` modifiers.
pub open spec fn cap_token(raw: Seq<char>) -> Seq<char> {
    strip_leading(raw, "-~="@)
}

/// The value after the first `=` of `s`, if there is one.
pub open spec fn after_eq(s: Seq<char>) -> Option<Seq<char>> {
    match find_from(s, '=', 0) {
        Some(k) => Some(s.subrange(k + 1, s.len() as int)),
        None => None,
    }
}

/// `s` with `c` added at the end unless it is already there.
pub open spec fn with_cap(s: Seq<Seq<char>>, c: Seq<char>) -> Seq<Seq<char>> {
    if s.contains(c) { s } else { s.push(c) }
}

/// `s` without `c`.
pub open spec fn without_cap(s: Seq<Seq<char>>, c: Seq<char>) -> Seq<Seq<char>> {
    s.filter(|x: Seq<char>| x != c)
}

/// A positive page size.
pub open spec fn positive(n: Option<usize>) -> Option<usize> {
    match n {
        Some(v) => if v > 0 { Some(v) } else { None },
        None => None,
    }
}

/// The first `limit=<n>` item (from `i` on) with a positive `n`.
pub open spec fn first_limit(items: Seq<Seq<char>>, i: int) -> Option<usize>
    decreases items.len() - i,
{
    if i < 0 || i >= items.len() {
        None
    } else {
        let found = match strip_lit(items[i], "limit="@) {
            Some(r) => positive(parse_usize(r)),
            None => None,
        };
        if found is Some { found } else { first_limit(items, i + 1) }
    }
}

/// The CHATHISTORY page size in a `draft/chathistory` value: the value
/// itself when it is a positive number (Nefarious), else the first positive
/// `limit=` item.
pub open spec fn chathistory_limit_of(v: Seq<char>) -> Option<usize> {
    if positive(parse_usize(v)) is Some { positive(parse_usize(v)) } else { first_limit(split_on(v, ','), 0) }
}

/// The multiline limits after the items `items[..n]` of a
/// `draft/multiline` value: each `max-bytes=` or `max-lines=` item sets its
/// limit (to `None` when it is no number).
pub open spec fn multiline_limits(items: Seq<Seq<char>>, n: int, bytes: Option<usize>, lines: Option<usize>)
    -> (Option<usize>, Option<usize>)
    decreases n,
{
    if n <= 0 || n > items.len() {
        (bytes, lines)
    } else {
        let before = multiline_limits(items, n - 1, bytes, lines);
        match strip_lit(items[n - 1], "max-bytes="@) {
            Some(r) => (parse_usize(r), before.1),
            None => match strip_lit(items[n - 1], "max-lines="@) {
                Some(r) => (before.0, parse_usize(r)),
                None => before,
            },
        }
    }
}

/// The state after one capability token of a CAP `sub` reply.
pub open spec fn cap_step(st: CapView, sub: Seq<char>, desired: Seq<Seq<char>>, raw: Seq<char>) -> CapView {
    let removing = raw.len() > 0 && raw[0] == '-';
    let token = cap_token(raw);
    let name = before_char(token, '=');
    let value = after_eq(token);
    let canonical = ascii_lower_seq(name);
    let drop = sub_is(sub, "DEL"@) || sub_is(sub, "NAK"@);
    let is_history = eq_ignore_ascii_case(name, "draft/chathistory"@);
    let multiline = match value {
        Some(v) => if !is_history && eq_ignore_ascii_case(name, "draft/multiline"@) {
            let items = split_on(v, ',');
            multiline_limits(items, items.len() as int, st.multiline_max_bytes, st.multiline_max_lines)
        } else {
            (st.multiline_max_bytes, st.multiline_max_lines)
        },
        None => (st.multiline_max_bytes, st.multiline_max_lines),
    };
    CapView {
        enabled: if sub_is(sub, "ACK"@) {
            if removing { without_cap(st.enabled, canonical) } else { with_cap(st.enabled, canonical) }
        } else if drop {
            without_cap(st.enabled, canonical)
        } else {
            st.enabled
        },
        chathistory_enabled: if is_history && sub_is(sub, "ACK"@) {
            !removing
        } else if is_history && drop {
            false
        } else {
            st.chathistory_enabled
        },
        chathistory_limit: match value {
            Some(v) => if is_history { chathistory_limit_of(v) } else { st.chathistory_limit },
            None => st.chathistory_limit,
        },
        multiline_max_bytes: multiline.0,
        multiline_max_lines: multiline.1,
        newly: if sub_is(sub, "NEW"@) && desired.contains(canonical) && !st.enabled.contains(canonical) {
            st.newly.push(canonical)
        } else {
            st.newly
        },
    }
}

/// The state after the tokens `toks[..n]`.
pub open spec fn cap_tokens(st: CapView, sub: Seq<char>, desired: Seq<Seq<char>>, toks: Seq<Seq<char>>, n: int) -> CapView
    decreases n,
{
    if n <= 0 || n > toks.len() {
        st
    } else {
        cap_step(cap_tokens(st, sub, desired, toks, n - 1), sub, desired, toks[n - 1])
    }
}

/// `str::parse::<usize>` of `v`.
pub(crate) fn parse_usize_exec(v: &Vec<char>) -> (r: Option<usize>)
    ensures
        r == parse_usize(v@),
{
    assert(v@.subrange(0, v@.len() as int) =~= v@);
    match parse_unsigned_range(v, 0, v.len(), usize::MAX as u64) {
        Some(n) => Some(n as usize),
        None => None,
    }
}

fn positive_exec(n: Option<usize>) -> (r: Option<usize>)
    ensures
        r == positive(n),
{
    match n {
        Some(v) => if v > 0 { Some(v) } else { None },
        None => None,
    }
}

/// The CHATHISTORY page size in a `draft/chathistory` value.
fn chathistory_limit_exec(v: &str) -> (r: Option<usize>)
    ensures
        r == chathistory_limit_of(v@),
{
    let vv = chars_of(v);
    let whole = positive_exec(parse_usize_exec(&vv));
    if whole.is_some() {
        return whole;
    }
    let items = split_char(v, ',');
    let ghost its = views(items@);
    assert(positive(parse_usize(v@)) is None);
    assert(chathistory_limit_of(v@) == first_limit(its, 0));
    let mut i: usize = 0;
    while i < items.len()
        invariant
            i <= items.len(),
            its == views(items@),
            its == split_on(v@, ','),
            chathistory_limit_of(v@) == first_limit(its, 0),
            first_limit(its, 0) == first_limit(its, i as int),
        decreases items.len() - i,
    {
        let t = chars_of(items[i].as_str());
        assert(its[i as int] == t@);
        let found = match strip_lit_exec(&t, "limit=") {
            Some(at) => positive_exec(parse_usize_exec(&sub_chars(&t, at, t.len()))),
            None => None,
        };
        assert(first_limit(its, i as int) == if found is Some { found } else { first_limit(its, i as int + 1) });
        if found.is_some() {
            return found;
        }
        i += 1;
    }
    None
}

/// `words` with `canonical` in them.
fn has_cap(v: &Vec<String>, c: &Vec<char>) -> (r: bool)
    ensures
        r == views(v@).contains(c@),
{
    let mut i: usize = 0;
    while i < v.len()
        invariant
            i <= v.len(),
            forall|j: int| 0 <= j < i ==> views(v@)[j] != c@,
        decreases v.len() - i,
    {
        if chars_eq(&chars_of(v[i].as_str()), c) {
            assert(views(v@)[i as int] == c@);
            return true;
        }
        i += 1;
    }
    false
}

fn has_cap_slice(v: &[String], c: &Vec<char>) -> (r: bool)
    ensures
        r == views(v@).contains(c@),
{
    let mut i: usize = 0;
    while i < v.len()
        invariant
            i <= v.len(),
            forall|j: int| 0 <= j < i ==> views(v@)[j] != c@,
        decreases v.len() - i,
    {
        if chars_eq(&chars_of(v[i].as_str()), c) {
            assert(views(v@)[i as int] == c@);
            return true;
        }
        i += 1;
    }
    false
}

fn drop_cap(v: &Vec<String>, c: &Vec<char>) -> (r: Vec<String>)
    ensures
        views(r@) == without_cap(views(v@), c@),
{
    let ghost vs = views(v@);
    let mut out: Vec<String> = Vec::new();
    let mut i: usize = 0;
    while i < v.len()
        invariant
            i <= v.len(),
            vs == views(v@),
            views(out@) == vs.take(i as int).filter(|x: Seq<char>| x != c@),
        decreases v.len() - i,
    {
        let same = chars_eq(&chars_of(v[i].as_str()), c);
        proof {
            assert(vs.take(i as int + 1).drop_last() =~= vs.take(i as int));
            assert(vs.take(i as int + 1).last() == v@[i as int]@);
            reveal_with_fuel(Seq::filter, 1);
        }
        if !same {
            let ghost before = views(out@);
            out.push(v[i].clone());
            assert(views(out@) =~= before.push(v@[i as int]@));
        }
        i += 1;
    }
    assert(vs.take(i as int) =~= vs);
    out
}

/// Capability negotiation state of a connection.
#[derive(Debug, Clone)]
pub struct CapState {
    /// Enabled capabilities, lower-cased.
    pub enabled_caps: Vec<String>,
    pub chathistory_enabled: bool,
    /// Page size the server allows for CHATHISTORY.
    pub chathistory_limit: Option<usize>,
}

impl CapState {
    /// The state with the server's multiline limits, before a reply.
    pub open spec fn view_with(&self, support: NetworkSupport) -> CapView {
        CapView {
            enabled: views(self.enabled_caps@),
            chathistory_enabled: self.chathistory_enabled,
            chathistory_limit: self.chathistory_limit,
            multiline_max_bytes: support.multiline_max_bytes,
            multiline_max_lines: support.multiline_max_lines,
            newly: Seq::empty(),
        }
    }

    /// Nothing negotiated yet.
    pub fn new() -> (r: Self)
        ensures
            r.enabled_caps@.len() == 0,
            !r.chathistory_enabled,
            r.chathistory_limit is None,
    {
        CapState { enabled_caps: Vec::new(), chathistory_enabled: false, chathistory_limit: None }
    }

    fn apply_token(&mut self, support: &mut NetworkSupport, desired: &[String], sub: &str, raw: &str,
        newly: &mut Vec<String>)
        ensures
            ({
                let before = CapView { newly: views(old(newly)@), ..old(self).view_with(*old(support)) };
                let after = cap_step(before, sub@, views(desired@), raw@);
                &&& views(final(self).enabled_caps@) == after.enabled
                &&& final(self).chathistory_enabled == after.chathistory_enabled
                &&& final(self).chathistory_limit == after.chathistory_limit
                &&& *final(support) == (NetworkSupport {
                    multiline_max_bytes: after.multiline_max_bytes,
                    multiline_max_lines: after.multiline_max_lines,
                    ..*old(support)
                })
                &&& views(final(newly)@) == after.newly
            }),
    {
        let sv = chars_of(sub);
        let is_new = range_eq_ignore_ascii_case(&sv, 0, sv.len(), &chars_of("NEW"));
        let is_ack = range_eq_ignore_ascii_case(&sv, 0, sv.len(), &chars_of("ACK"));
        let drop = range_eq_ignore_ascii_case(&sv, 0, sv.len(), &chars_of("DEL"))
            || range_eq_ignore_ascii_case(&sv, 0, sv.len(), &chars_of("NAK"));
        assert(sv@.subrange(0, sv@.len() as int) =~= sv@);
        let v = chars_of(raw);
        let removing = v.len() > 0 && v[0] == '-';
        let mods = chars_of("-~=");
        let start = prefix_run_exec(&v, &mods);
        let tok = sub_chars(&v, start, v.len());
        assert(tok@ == cap_token(raw@));
        let eq = find_char(&tok, '=', 0);
        let name_end = match eq {
            Some(k) => k,
            None => tok.len(),
        };
        proof {
            crate::text::lemma_find_from(tok@, '=', 0);
        }
        let name = sub_chars(&tok, 0, name_end);
        assert(name@ == before_char(tok@, '=')) by {
            if eq.is_none() {
                assert(tok@.subrange(0, tok@.len() as int) =~= tok@);
            }
        }
        let canon = ascii_lower_vec(&name);
        let value: Option<String> = match eq {
            Some(k) => Some(string_from_range(&tok, k + 1, tok.len())),
            None => None,
        };
        assert(match value { Some(s) => Some(s@), None => None::<Seq<char>> } == after_eq(tok@));
        if is_new && has_cap_slice(desired, &canon) && !has_cap(&self.enabled_caps, &canon) {
            newly.push(string_from_chars(&canon));
            proof {
                assert(views(newly@) =~= views(old(newly)@).push(canon@));
            }
        }
        if is_ack {
            if removing {
                self.enabled_caps = drop_cap(&self.enabled_caps, &canon);
            } else if !has_cap(&self.enabled_caps, &canon) {
                let ghost before = views(self.enabled_caps@);
                self.enabled_caps.push(string_from_chars(&canon));
                assert(views(self.enabled_caps@) =~= before.push(canon@));
            }
        } else if drop {
            self.enabled_caps = drop_cap(&self.enabled_caps, &canon);
        }
        let is_history = range_eq_ignore_ascii_case(&name, 0, name.len(), &chars_of("draft/chathistory"));
        assert(name@.subrange(0, name@.len() as int) =~= name@);
        if is_history {
            match &value {
                Some(val) => {
                    self.chathistory_limit = chathistory_limit_exec(val.as_str());
                },
                None => {},
            }
            if is_ack {
                self.chathistory_enabled = !removing;
            } else if drop {
                self.chathistory_enabled = false;
            }
        } else if range_eq_ignore_ascii_case(&name, 0, name.len(), &chars_of("draft/multiline")) {
            match &value {
                Some(val) => {
                    let items = split_char(val.as_str(), ',');
                    let ghost its = views(items@);
                    let ghost b0 = old(support).multiline_max_bytes;
                    let ghost l0 = old(support).multiline_max_lines;
                    let mut i: usize = 0;
                    while i < items.len()
                        invariant
                            i <= items.len(),
                            its == views(items@),
                            (support.multiline_max_bytes, support.multiline_max_lines)
                                == multiline_limits(its, i as int, b0, l0),
                            *support == (NetworkSupport {
                                multiline_max_bytes: support.multiline_max_bytes,
                                multiline_max_lines: support.multiline_max_lines,
                                ..*old(support)
                            }),
                        decreases items.len() - i,
                    {
                        let t = chars_of(items[i].as_str());
                        match strip_lit_exec(&t, "max-bytes=") {
                            Some(at) => {
                                support.multiline_max_bytes = parse_usize_exec(&sub_chars(&t, at, t.len()));
                            },
                            None => match strip_lit_exec(&t, "max-lines=") {
                                Some(at) => {
                                    support.multiline_max_lines = parse_usize_exec(&sub_chars(&t, at, t.len()));
                                },
                                None => {},
                            },
                        }
                        i += 1;
                    }
                },
                None => {},
            }
        }
    }

    /// Handle a CAP reply (`LS`, `NEW`, `ACK`, `NAK`, `DEL`, ...) whose last
    /// parameter lists capabilities: enable or drop them, record what their
    /// values say (CHATHISTORY page size, multiline limits), and return the
    /// wanted (`desired`) capabilities a CAP NEW newly offers, to request.
    pub fn handle_cap_message(&mut self, support: &mut NetworkSupport, desired: &[String], subcommand: &str,
        params: &[String]) -> (newly: Vec<String>)
        ensures
            ({
                let st0 = old(self).view_with(*old(support));
                let st = if params@.len() == 0 {
                    st0
                } else {
                    let toks = words(params@.last()@);
                    cap_tokens(st0, subcommand@, views(desired@), toks, toks.len() as int)
                };
                &&& views(final(self).enabled_caps@) == st.enabled
                &&& final(self).chathistory_enabled == st.chathistory_enabled
                &&& final(self).chathistory_limit == st.chathistory_limit
                &&& *final(support) == (NetworkSupport {
                    multiline_max_bytes: st.multiline_max_bytes,
                    multiline_max_lines: st.multiline_max_lines,
                    ..*old(support)
                })
                &&& views(newly@) == st.newly
            }),
    {
        let mut newly: Vec<String> = Vec::new();
        if params.len() == 0 {
            return newly;
        }
        let toks = split_whitespace(params[params.len() - 1].as_str());
        let ghost ts = views(toks@);
        let ghost st0 = old(self).view_with(*old(support));
        let mut i: usize = 0;
        while i < toks.len()
            invariant
                i <= toks.len(),
                ts == views(toks@),
                ts == words(params@.last()@),
                ({
                    let st = cap_tokens(st0, subcommand@, views(desired@), ts, i as int);
                    &&& views(self.enabled_caps@) == st.enabled
                    &&& self.chathistory_enabled == st.chathistory_enabled
                    &&& self.chathistory_limit == st.chathistory_limit
                    &&& *support == (NetworkSupport {
                        multiline_max_bytes: st.multiline_max_bytes,
                        multiline_max_lines: st.multiline_max_lines,
                        ..*old(support)
                    })
                    &&& views(newly@) == st.newly
                }),
            decreases toks.len() - i,
        {
            self.apply_token(support, desired, subcommand, toks[i].as_str(), &mut newly);
            i += 1;
        }
        newly
    }
}

} // verus!

//! Decisions on incoming messages: the window a message belongs in, and
//! how replies and events are described there.

use vstd::prelude::*;

use crate::commands::split_first_space;
use crate::helpers::{format_timestamp, spec_truncate_chars, timestamp_text, truncate_chars};
use crate::modes::{joined, push_joined};
use crate::network::{spec_is_channel, spec_network_canonicalize, NetworkSupport};
use crate::numfmt::{dec, dec_chars_u128, parse_u128, parse_unsigned, parse_unsigned_range, push_chars, push_dec};
use crate::session::{spec_strip_status_prefix, strip_status_prefix, unix_now_millis};
use crate::slash::split_space;
use crate::text::{
    chars_of, eq_ignore_ascii_case, push_char, push_str, range_eq_ignore_ascii_case, split_whitespace,
    string_from_range, to_string, views, words,
};

verus! {

/// Whether two identifiers are equal under the network's case mapping.
pub open spec fn same_identifier(support: &NetworkSupport, a: Seq<char>, b: Seq<char>) -> bool {
    spec_network_canonicalize(support.case_mapping, support.channel_types@, a)
        == spec_network_canonicalize(support.case_mapping, support.channel_types@, b)
}

/// The window of a PRIVMSG to `target` from `sender`, and whether it is a
/// private message to us: a channel (a leading status prefix removed), the
/// sender's query for a message to our nick, otherwise the target as sent.
pub open spec fn spec_privmsg_window(support: &NetworkSupport, my_nick: Seq<char>, sender: Seq<char>, target: Seq<char>)
    -> (Seq<char>, bool) {
    let routed = spec_strip_status_prefix(support, target);
    let chan = spec_is_channel(support.channel_types@, routed);
    let is_pm = !chan && same_identifier(support, routed, my_nick);
    (if chan { routed } else if is_pm { sender } else { target }, is_pm)
}

/// Route a PRIVMSG (see `spec_privmsg_window`).
pub fn privmsg_window(support: &NetworkSupport, my_nick: &str, sender: &str, target: &str) -> (r: (String, bool))
    ensures
        (r.0@, r.1) == spec_privmsg_window(support, my_nick@, sender@, target@),
{
    let routed = strip_status_prefix(support, target);
    if support.is_channel(routed) {
        return (to_string(routed), false);
    }
    if support.identifiers_equal(routed, my_nick) {
        (to_string(sender), true)
    } else {
        (to_string(target), false)
    }
}

/// The marker that opens a CTCP ACTION.
pub open spec fn action_prefix() -> Seq<char> {
    seq!['\x01', 'A', 'C', 'T', 'I', 'O', 'N', ' ']
}

/// The text of a CTCP ACTION (`\x01ACTION text\x01`), if `content` is one.
pub open spec fn spec_action_text(content: Seq<char>) -> Option<Seq<char>> {
    if content.len() > action_prefix().len() && content.subrange(0, 8) == action_prefix() && content.last() == '\x01' {
        Some(content.subrange(8, content.len() - 1))
    } else {
        None
    }
}

/// The text of a CTCP ACTION (see `spec_action_text`).
pub fn action_text(content: &str) -> (r: Option<String>)
    ensures
        match r {
            Some(t) => spec_action_text(content@) == Some(t@),
            None => spec_action_text(content@) is None,
        },
{
    let v = chars_of(content);
    let n = v.len();
    if n > 8 && v[0] == '\x01' && v[1] == 'A' && v[2] == 'C' && v[3] == 'T' && v[4] == 'I' && v[5] == 'O'
        && v[6] == 'N' && v[7] == ' ' && v[n - 1] == '\x01' {
        assert(v@.subrange(0, 8) =~= action_prefix());
        return Some(string_from_range(&v, 8, n - 1));
    }
    proof {
        if n > 8 && v@.subrange(0, 8) == action_prefix() {
            assert(v@[0] == v@.subrange(0, 8)[0]);
            assert(v@[1] == v@.subrange(0, 8)[1]);
            assert(v@[2] == v@.subrange(0, 8)[2]);
            assert(v@[3] == v@.subrange(0, 8)[3]);
            assert(v@[4] == v@.subrange(0, 8)[4]);
            assert(v@[5] == v@.subrange(0, 8)[5]);
            assert(v@[6] == v@.subrange(0, 8)[6]);
            assert(v@[7] == v@.subrange(0, 8)[7]);
        }
    }
    None
}

/// The desktop notification for a message (title, body, and whether it is
/// shown even while the window has focus): private messages always notify,
/// mentions of our nick notify; our own messages never do.
pub open spec fn spec_privmsg_notification(is_pm: bool, is_highlight: bool, from_self: bool, sender: Seq<char>,
    window: Seq<char>, content: Seq<char>) -> Option<(Seq<char>, Seq<char>, bool)> {
    if is_pm && !from_self {
        Some(("PM from "@ + sender, spec_truncate_chars(content, 50), true))
    } else if is_highlight && !from_self {
        Some((sender + " mentioned you in "@ + window, spec_truncate_chars(content, 50), false))
    } else {
        None
    }
}

/// The notification for a message (see `spec_privmsg_notification`).
pub fn privmsg_notification(is_pm: bool, is_highlight: bool, from_self: bool, sender: &str, window: &str,
    content: &str) -> (r: Option<(String, String, bool)>)
    ensures
        match r {
            Some((t, b, f)) => spec_privmsg_notification(is_pm, is_highlight, from_self, sender@, window@, content@)
                == Some((t@, b@, f)),
            None => spec_privmsg_notification(is_pm, is_highlight, from_self, sender@, window@, content@) is None,
        },
{
    if is_pm && !from_self {
        let mut title = to_string("PM from ");
        push_str(&mut title, sender);
        Some((title, truncate_chars(content, 50), true))
    } else if is_highlight && !from_self {
        let mut title = to_string(sender);
        push_str(&mut title, " mentioned you in ");
        push_str(&mut title, window);
        Some((title, truncate_chars(content, 50), false))
    } else {
        None
    }
}

/// The window of a NOTICE (`None`: the server window): notices to `*` and
/// those received while not connected go to the server window, notices to
/// our nick to the sender's query (service replies), others to their
/// target with a status prefix removed.
pub open spec fn spec_notice_window(support: &NetworkSupport, my_nick: Seq<char>, connected: bool, sender: Seq<char>,
    target: Seq<char>) -> Option<Seq<char>> {
    let routed = spec_strip_status_prefix(support, target);
    if routed == seq!['*'] || !connected {
        None
    } else if !spec_is_channel(support.channel_types@, routed) && same_identifier(support, routed, my_nick) {
        Some(sender)
    } else {
        Some(routed)
    }
}

/// Route a NOTICE (see `spec_notice_window`).
pub fn notice_window(support: &NetworkSupport, my_nick: &str, connected: bool, sender: &str, target: &str)
    -> (r: Option<String>)
    ensures
        match r {
            Some(w) => spec_notice_window(support, my_nick@, connected, sender@, target@) == Some(w@),
            None => spec_notice_window(support, my_nick@, connected, sender@, target@) is None,
        },
{
    let routed = strip_status_prefix(support, target);
    let rv = chars_of(routed);
    let star = rv.len() == 1 && rv[0] == '*';
    proof {
        if routed@ == seq!['*'] {
            assert(rv@.len() == 1 && rv@[0] == '*');
        }
        if star {
            assert(rv@ =~= seq!['*']);
        }
    }
    if star || !connected {
        return None;
    }
    if !support.is_channel(routed) && support.identifiers_equal(routed, my_nick) {
        Some(to_string(sender))
    } else {
        Some(to_string(routed))
    }
}

/// A CTCP reply in a NOTICE (`\x01COMMAND reply\x01`): its command and reply.
pub open spec fn spec_ctcp_reply(content: Seq<char>) -> Option<(Seq<char>, Seq<char>)> {
    if content.len() >= 2 && content[0] == '\x01' && content.last() == '\x01' {
        let (cmd, rest) = split_first_space(content.subrange(1, content.len() - 1));
        Some((cmd, match rest { Some(r) => r, None => Seq::empty() }))
    } else {
        None
    }
}

/// The line shown for a CTCP reply; a PING reply carrying our send time in
/// milliseconds shows the latency at `now` (never negative).
pub open spec fn spec_ctcp_reply_note(sender: Seq<char>, cmd: Seq<char>, reply: Seq<char>, now: nat) -> Seq<char> {
    if eq_ignore_ascii_case(cmd, "PING"@) {
        match parse_unsigned(reply, u128::MAX as nat) {
            Some(sent) => "[CTCP PING reply] "@ + sender + " - "@ + dec(if now > sent { (now - sent) as nat } else { 0 })
                + "ms"@,
            None => "[CTCP PING reply] "@ + sender + " - "@ + reply,
        }
    } else {
        "[CTCP "@ + cmd + " reply] "@ + sender + " - "@ + reply
    }
}

/// The CTCP reply line of a NOTICE, at time `now_ms` (see `spec_ctcp_reply`
/// and `spec_ctcp_reply_note`); `None` for an ordinary notice.
pub fn ctcp_reply_note(sender: &str, content: &str, now_ms: u128) -> (r: Option<String>)
    ensures
        match spec_ctcp_reply(content@) {
            Some((cmd, reply)) => r is Some && r.unwrap()@ == spec_ctcp_reply_note(sender@, cmd, reply, now_ms as nat),
            None => r is None,
        },
{
    let v = chars_of(content);
    let n = v.len();
    if !(n >= 2 && v[0] == '\x01' && v[n - 1] == '\x01') {
        return None;
    }
    let inner = string_from_range(&v, 1, n - 1);
    let (cmd, rest) = split_space(inner.as_str());
    let reply = match rest {
        Some(r) => r,
        None => String::new(),
    };
    let cv = chars_of(cmd.as_str());
    let ping = chars_of("PING");
    assert(cv@.subrange(0, cv@.len() as int) =~= cv@);
    let mut out = String::new();
    if range_eq_ignore_ascii_case(&cv, 0, cv.len(), &ping) {
        push_str(&mut out, "[CTCP PING reply] ");
        push_str(&mut out, sender);
        push_str(&mut out, " - ");
        match parse_u128(&chars_of(reply.as_str())) {
            Some(sent) => {
                let latency: u128 = if now_ms > sent { now_ms - sent } else { 0 };
                push_chars(&mut out, &dec_chars_u128(latency));
                push_str(&mut out, "ms");
            },
            None => {
                push_str(&mut out, reply.as_str());
            },
        }
    } else {
        push_str(&mut out, "[CTCP ");
        push_str(&mut out, cmd.as_str());
        push_str(&mut out, " reply] ");
        push_str(&mut out, sender);
        push_str(&mut out, " - ");
        push_str(&mut out, reply.as_str());
    }
    Some(out)
}

/// The CTCP reply line of a NOTICE, timed by the clock now.
pub fn ctcp_reply_note_now(sender: &str, content: &str) -> (r: Option<String>)
    ensures
        match spec_ctcp_reply(content@) {
            Some((cmd, reply)) => r is Some && exists|now: nat| r.unwrap()@ == spec_ctcp_reply_note(sender@, cmd, reply, now),
            None => r is None,
        },
{
    let now = unix_now_millis();
    ctcp_reply_note(sender, content, now)
}

/// The group a STATUSMSG was sent to, by its status character.
pub open spec fn status_label(status: char) -> Seq<char> {
    if status == '@' {
        "ops"@
    } else if status == '%' {
        "halfops"@
    } else if status == '+' {
        "voices"@
    } else {
        "members"@
    }
}

/// How a message to part of a channel is shown: `-sender/ops- text`.
pub open spec fn spec_status_message_text(sender: Seq<char>, status: char, content: Seq<char>) -> Seq<char> {
    "-"@ + sender + "/"@ + status_label(status) + "- "@ + content
}

/// The line for a STATUSMSG (see `spec_status_message_text`).
pub fn status_message_text(sender: &str, status: char, content: &str) -> (r: String)
    ensures
        r@ == spec_status_message_text(sender@, status, content@),
{
    let mut r = to_string("-");
    push_str(&mut r, sender);
    push_str(&mut r, "/");
    let label = if status == '@' {
        "ops"
    } else if status == '%' {
        "halfops"
    } else if status == '+' {
        "voices"
    } else {
        "members"
    };
    push_str(&mut r, label);
    push_str(&mut r, "- ");
    push_str(&mut r, content);
    r
}

/// How a reaction is shown: `sender reacted 👍`, ` to <msgid>` when it
/// answers a message.
pub open spec fn spec_reaction_text(sender: Seq<char>, reaction: Seq<char>, reply_to: Option<Seq<char>>) -> Seq<char> {
    sender + " reacted "@ + reaction + match reply_to {
        Some(id) => " to "@ + id,
        None => Seq::empty(),
    }
}

/// The line for a reaction (see `spec_reaction_text`).
pub fn reaction_text(sender: &str, reaction: &str, reply_to: Option<&str>) -> (r: String)
    ensures
        r@ == spec_reaction_text(sender@, reaction@, match reply_to { Some(id) => Some(id@), None => None }),
{
    let mut r = to_string(sender);
    push_str(&mut r, " reacted ");
    push_str(&mut r, reaction);
    match reply_to {
        Some(id) => {
            push_str(&mut r, " to ");
            push_str(&mut r, id);
        },
        None => {
            assert(r@ + Seq::<char>::empty() =~= r@);
        },
    }
    r
}

/// The window of a reaction: the sender's query when it was sent to our
/// nick, otherwise its target with a status prefix removed.
pub open spec fn spec_reaction_window(support: &NetworkSupport, my_nick: Seq<char>, sender: Seq<char>, target: Seq<char>)
    -> Seq<char> {
    let routed = spec_strip_status_prefix(support, target);
    if !spec_is_channel(support.channel_types@, routed) && same_identifier(support, routed, my_nick) {
        sender
    } else {
        routed
    }
}

/// Route a reaction (see `spec_reaction_window`).
pub fn reaction_window(support: &NetworkSupport, my_nick: &str, sender: &str, target: &str) -> (r: String)
    ensures
        r@ == spec_reaction_window(support, my_nick@, sender@, target@),
{
    let routed = strip_status_prefix(support, target);
    if !support.is_channel(routed) && support.identifiers_equal(routed, my_nick) {
        to_string(sender)
    } else {
        to_string(routed)
    }
}

/// How an IRCv3 standard reply (FAIL/WARN/NOTE) is shown:
/// `[KIND COMMAND/CODE] context: description`, without `context: ` when the
/// context is empty.
pub open spec fn spec_standard_reply_text(kind: Seq<char>, command: Seq<char>, code: Seq<char>,
    context: Seq<Seq<char>>, description: Seq<char>) -> Seq<char> {
    let head = "["@ + kind + " "@ + command + "/"@ + code + "] "@;
    if joined(context).len() == 0 {
        head + description
    } else {
        head + joined(context) + ": "@ + description
    }
}

/// The line for a standard reply (see `spec_standard_reply_text`).
pub fn standard_reply_text(kind: &str, command: &str, code: &str, context: &[String], description: &str) -> (r: String)
    ensures
        r@ == spec_standard_reply_text(kind@, command@, code@, views(context@), description@),
{
    let mut ctx = String::new();
    push_joined(&mut ctx, context);
    assert(ctx@ =~= joined(views(context@)));
    let mut r = to_string("[");
    push_str(&mut r, kind);
    push_str(&mut r, " ");
    push_str(&mut r, command);
    push_str(&mut r, "/");
    push_str(&mut r, code);
    push_str(&mut r, "] ");
    if chars_of(ctx.as_str()).len() != 0 {
        push_str(&mut r, ctx.as_str());
        push_str(&mut r, ": ");
    }
    push_str(&mut r, description);
    r
}

/// The first of `ws` that is a channel name.
pub open spec fn first_channel_of(ws: Seq<Seq<char>>, types: Seq<char>) -> Option<Seq<char>>
    decreases ws.len(),
{
    if ws.len() == 0 {
        None
    } else if spec_is_channel(types, ws[0]) {
        Some(ws[0])
    } else {
        first_channel_of(ws.drop_first(), types)
    }
}

/// The window of a standard reply: the first channel name among the words
/// of its context, if any (else the server window).
pub open spec fn spec_standard_reply_window(context: Seq<Seq<char>>, types: Seq<char>) -> Option<Seq<char>>
    decreases context.len(),
{
    if context.len() == 0 {
        None
    } else {
        match first_channel_of(words(context[0]), types) {
            Some(c) => Some(c),
            None => spec_standard_reply_window(context.drop_first(), types),
        }
    }
}

fn first_channel_word(ws: &Vec<String>, support: &NetworkSupport) -> (r: Option<String>)
    ensures
        match r {
            Some(c) => first_channel_of(views(ws@), support.channel_types@) == Some(c@),
            None => first_channel_of(views(ws@), support.channel_types@) is None,
        },
{
    let ghost all = views(ws@);
    assert(all.subrange(0, all.len() as int) =~= all);
    let mut i: usize = 0;
    while i < ws.len()
        invariant
            i <= ws.len(),
            all == views(ws@),
            first_channel_of(all, support.channel_types@) == first_channel_of(all.subrange(i as int, all.len() as int),
                support.channel_types@),
        decreases ws.len() - i,
    {
        let ghost rest = all.subrange(i as int, all.len() as int);
        assert(rest[0] == ws@[i as int]@);
        if support.is_channel(ws[i].as_str()) {
            return Some(ws[i].clone());
        }
        assert(rest.drop_first() =~= all.subrange(i + 1, all.len() as int));
        i += 1;
    }
    None
}

/// The window of a standard reply (see `spec_standard_reply_window`).
pub fn standard_reply_window(context: &[String], support: &NetworkSupport) -> (r: Option<String>)
    ensures
        match r {
            Some(c) => spec_standard_reply_window(views(context@), support.channel_types@) == Some(c@),
            None => spec_standard_reply_window(views(context@), support.channel_types@) is None,
        },
{
    let ghost all = views(context@);
    assert(all.subrange(0, all.len() as int) =~= all);
    let mut i: usize = 0;
    while i < context.len()
        invariant
            i <= context.len(),
            all == views(context@),
            spec_standard_reply_window(all, support.channel_types@)
                == spec_standard_reply_window(all.subrange(i as int, all.len() as int), support.channel_types@),
        decreases context.len() - i,
    {
        let ghost rest = all.subrange(i as int, all.len() as int);
        assert(rest[0] == context@[i as int]@);
        let ws = split_whitespace(context[i].as_str());
        if let Some(c) = first_channel_word(&ws, support) {
            return Some(c);
        }
        assert(rest.drop_first() =~= all.subrange(i + 1, all.len() as int));
        i += 1;
    }
    None
}

/// The note left where a message was redacted: the message itself when it
/// was still in the scrollback, otherwise its id; a non-empty reason follows.
pub open spec fn spec_redaction_note(removed: bool, msgid: Seq<char>, reason: Option<Seq<char>>) -> Seq<char> {
    let why = match reason {
        Some(r) => if r.len() > 0 { ": "@ + r } else { Seq::empty() },
        None => Seq::empty(),
    };
    if removed {
        "A message was redacted"@ + why
    } else {
        "Message "@ + msgid + " was redacted"@ + why
    }
}

/// The redaction note (see `spec_redaction_note`).
pub fn redaction_note(removed: bool, msgid: &str, reason: Option<&str>) -> (r: String)
    ensures
        r@ == spec_redaction_note(removed, msgid@, match reason { Some(x) => Some(x@), None => None }),
{
    let mut r = if removed {
        to_string("A message was redacted")
    } else {
        let mut m = to_string("Message ");
        push_str(&mut m, msgid);
        push_str(&mut m, " was redacted");
        m
    };
    let ghost base = r@;
    match reason {
        Some(x) => if chars_of(x).len() > 0 {
            push_str(&mut r, ": ");
            push_str(&mut r, x);
        } else {
            assert(base + Seq::<char>::empty() =~= base);
        },
        None => {
            assert(base + Seq::<char>::empty() =~= base);
        },
    }
    r
}


/// How someone joining is announced; IRCv3 extended-join adds the real
/// name in parentheses and the account in brackets.
pub open spec fn spec_join_note(nick: Seq<char>, account: Option<Seq<char>>, realname: Option<Seq<char>>,
    channel: Seq<char>) -> Seq<char> {
    nick + match realname {
        Some(r) => " ("@ + r + ")"@,
        None => Seq::empty(),
    } + match account {
        Some(a) => " ["@ + a + "]"@,
        None => Seq::empty(),
    } + " has joined "@ + channel
}

/// The join announcement (see `spec_join_note`).
pub fn join_note(nick: &str, account: Option<&str>, realname: Option<&str>, channel: &str) -> (r: String)
    ensures
        r@ == spec_join_note(nick@, match account { Some(a) => Some(a@), None => None },
            match realname { Some(x) => Some(x@), None => None }, channel@),
{
    let mut r = to_string(nick);
    let ghost a0 = r@;
    match realname {
        Some(x) => {
            push_str(&mut r, " (");
            push_str(&mut r, x);
            push_str(&mut r, ")");
        },
        None => {
            assert(a0 + Seq::<char>::empty() =~= a0);
        },
    }
    let ghost a1 = r@;
    match account {
        Some(a) => {
            push_str(&mut r, " [");
            push_str(&mut r, a);
            push_str(&mut r, "]");
        },
        None => {
            assert(a1 + Seq::<char>::empty() =~= a1);
        },
    }
    push_str(&mut r, " has joined ");
    push_str(&mut r, channel);
    r
}

/// `nick has left #chan (reason)`, the reason empty when none was given.
pub open spec fn spec_part_note(nick: Seq<char>, channel: Seq<char>, reason: Option<Seq<char>>) -> Seq<char> {
    nick + " has left "@ + channel + " ("@ + match reason { Some(r) => r, None => Seq::empty() } + ")"@
}

/// `nick has quit (reason)`, the reason `Quit` when none was given.
pub open spec fn spec_quit_note(nick: Seq<char>, reason: Option<Seq<char>>) -> Seq<char> {
    nick + " has quit ("@ + match reason { Some(r) => r, None => "Quit"@ } + ")"@
}

/// `kicked was kicked from #chan by sender (reason)`, or, when we were the
/// one kicked, `You were kicked from #chan by sender (reason)`.
pub open spec fn spec_kick_note(kicked: Seq<char>, is_me: bool, channel: Seq<char>, sender: Seq<char>,
    reason: Option<Seq<char>>) -> Seq<char> {
    (if is_me { "You were kicked from "@ } else { kicked + " was kicked from "@ }) + channel + " by "@ + sender
        + " ("@ + match reason { Some(r) => r, None => Seq::empty() } + ")"@
}

/// `old is now known as new`.
pub open spec fn spec_nick_note(old_nick: Seq<char>, new_nick: Seq<char>) -> Seq<char> {
    old_nick + " is now known as "@ + new_nick
}

fn push_reason(r: &mut String, reason: Option<&str>, default: &str)
    ensures
        final(r)@ == old(r)@ + " ("@ + match reason { Some(x) => x@, None => default@ } + ")"@,
{
    push_str(r, " (");
    match reason {
        Some(x) => push_str(r, x),
        None => push_str(r, default),
    }
    push_str(r, ")");
}

/// The part announcement (see `spec_part_note`).
pub fn part_note(nick: &str, channel: &str, reason: Option<&str>) -> (r: String)
    ensures
        r@ == spec_part_note(nick@, channel@, match reason { Some(x) => Some(x@), None => None }),
{
    let mut r = to_string(nick);
    push_str(&mut r, " has left ");
    push_str(&mut r, channel);
    push_reason(&mut r, reason, "");
    proof {
        if reason is None {
            reveal_strlit("");
        }
    }
    r
}

/// The quit announcement (see `spec_quit_note`).
pub fn quit_note(nick: &str, reason: Option<&str>) -> (r: String)
    ensures
        r@ == spec_quit_note(nick@, match reason { Some(x) => Some(x@), None => None }),
{
    let mut r = to_string(nick);
    push_str(&mut r, " has quit (");
    match reason {
        Some(x) => push_str(&mut r, x),
        None => push_str(&mut r, "Quit"),
    }
    push_str(&mut r, ")");
    r
}

/// The kick announcement (see `spec_kick_note`).
pub fn kick_note(kicked: &str, is_me: bool, channel: &str, sender: &str, reason: Option<&str>) -> (r: String)
    ensures
        r@ == spec_kick_note(kicked@, is_me, channel@, sender@, match reason { Some(x) => Some(x@), None => None }),
{
    let mut r = if is_me {
        to_string("You were kicked from ")
    } else {
        let mut k = to_string(kicked);
        push_str(&mut k, " was kicked from ");
        k
    };
    push_str(&mut r, channel);
    push_str(&mut r, " by ");
    push_str(&mut r, sender);
    push_reason(&mut r, reason, "");
    proof {
        if reason is None {
            reveal_strlit("");
        }
    }
    r
}

/// The nick change announcement (see `spec_nick_note`).
pub fn nick_note(old_nick: &str, new_nick: &str) -> (r: String)
    ensures
        r@ == spec_nick_note(old_nick@, new_nick@),
{
    let mut r = to_string(old_nick);
    push_str(&mut r, " is now known as ");
    push_str(&mut r, new_nick);
    r
}

/// What a registration-time error leads to.
#[derive(Debug, Clone, PartialEq, Eq)]
pub enum RegistrationReply {
    /// Shown in the server window; nothing else changes.
    Report(String),
    /// The connection attempt is abandoned with this reason.
    Fail(String),
    /// Registration goes on with this nick.
    RetryNick(String),
}

pub open spec fn last_or(params: Seq<Seq<char>>, default: Seq<char>) -> Seq<char> {
    if params.len() > 0 { params.last() } else { default }
}

/// After registration a taken nick is only reported (`rejected: text`);
/// during registration the nick gets a `_` appended, up to three times,
/// after which registration fails.
pub open spec fn spec_nick_in_use(connected: bool, attempts: u32, my_nick: Seq<char>, params: Seq<Seq<char>>)
    -> (RegistrationReplyView, nat) {
    let text = last_or(params, "Nickname is already in use"@);
    if connected {
        (RegistrationReplyView::Report((if params.len() > 1 { params[1] } else { Seq::empty() }) + ": "@ + text),
            attempts as nat)
    } else if attempts >= 3 {
        (RegistrationReplyView::Fail("Registration failed: "@ + text), attempts as nat)
    } else {
        (RegistrationReplyView::RetryNick(my_nick + seq!['_']), (attempts + 1) as nat)
    }
}

/// The view of a `RegistrationReply`.
pub enum RegistrationReplyView {
    Report(Seq<char>),
    Fail(Seq<char>),
    RetryNick(Seq<char>),
}

impl View for RegistrationReply {
    type V = RegistrationReplyView;

    open spec fn view(&self) -> RegistrationReplyView {
        match self {
            RegistrationReply::Report(t) => RegistrationReplyView::Report(t@),
            RegistrationReply::Fail(t) => RegistrationReplyView::Fail(t@),
            RegistrationReply::RetryNick(t) => RegistrationReplyView::RetryNick(t@),
        }
    }
}

fn last_or_exec(params: &[String], default: &str) -> (r: String)
    ensures
        r@ == last_or(views(params@), default@),
{
    if params.len() > 0 {
        assert(views(params@).last() == params@[params.len() - 1]@);
        params[params.len() - 1].clone()
    } else {
        to_string(default)
    }
}

/// ERR_NICKNAMEINUSE with `attempts` retries made so far: the reply and the
/// new retry count (see `spec_nick_in_use`).
pub fn nick_in_use(connected: bool, attempts: u32, my_nick: &str, params: &[String]) -> (r: (RegistrationReply, u32))
    ensures
        (r.0@, r.1 as nat) == spec_nick_in_use(connected, attempts, my_nick@, views(params@)),
{
    let text = last_or_exec(params, "Nickname is already in use");
    if connected {
        let mut t = if params.len() > 1 {
            assert(views(params@)[1] == params@[1]@);
            params[1].clone()
        } else {
            String::new()
        };
        push_str(&mut t, ": ");
        push_str(&mut t, text.as_str());
        return (RegistrationReply::Report(t), attempts);
    }
    if attempts >= 3 {
        let mut t = to_string("Registration failed: ");
        push_str(&mut t, text.as_str());
        return (RegistrationReply::Fail(t), attempts);
    }
    let mut nick = to_string(my_nick);
    push_char(&mut nick, '_');
    assert(nick@ =~= my_nick@ + seq!['_']);
    (RegistrationReply::RetryNick(nick), attempts + 1)
}

/// Other fatal registration errors (bad nick, bad password, banned): before
/// registration they end the attempt, afterwards they are reported as
/// `[number] text`; the text defaults to `registration error <number>`.
pub open spec fn spec_registration_error(num: u16, connected: bool, params: Seq<Seq<char>>) -> RegistrationReplyView {
    let text = last_or(params, "registration error "@ + dec(num as nat));
    if connected {
        RegistrationReplyView::Report("["@ + dec(num as nat) + "] "@ + text)
    } else {
        RegistrationReplyView::Fail("Registration failed: "@ + text)
    }
}

/// A fatal registration error (see `spec_registration_error`).
pub fn registration_error(num: u16, connected: bool, params: &[String]) -> (r: RegistrationReply)
    ensures
        r@ == spec_registration_error(num, connected, views(params@)),
{
    let mut default = to_string("registration error ");
    push_dec(&mut default, num as u64);
    let text = last_or_exec(params, default.as_str());
    if connected {
        let mut t = to_string("[");
        push_dec(&mut t, num as u64);
        push_str(&mut t, "] ");
        push_str(&mut t, text.as_str());
        RegistrationReply::Report(t)
    } else {
        let mut t = to_string("Registration failed: ");
        push_str(&mut t, text.as_str());
        RegistrationReply::Fail(t)
    }
}


/// The numeric replies that are only shown as a line of text.
#[derive(Debug, Clone, Copy, PartialEq, Eq, Structural)]
pub enum NumericKind {
    Away,
    WhoisUser,
    WhoisServer,
    WhoisOperator,
    WhoisIdle,
    EndOfWhois,
    WhoisChannels,
    WhoisAccount,
    WhoisActually,
    WhoisMarks,
    WhoisSecure,
    WhoisSpecial,
    WhoisCertfp,
    WhoisRegnick,
    WhoisBot,
    WhoisHost,
    WhoisModes,
    NoSuchNick,
    NoSuchChannel,
    CannotSendToChan,
    NotOnChannel,
    InviteOnlyChan,
    BannedFromChan,
    BadChannelKey,
    QuietList,
    EndOfQuietList,
    MonOnline,
    MonOffline,
    MonList,
    EndOfMonList,
    MonListFull,
    Metadata,
    Bouncer,
    Other,
}

/// An idle time: `Hh Mm` from an hour on, `Mm Ss` from a minute on, else `Ss`.
pub open spec fn spec_idle_text(idle: nat) -> Seq<char> {
    if idle >= 3600 {
        dec(idle / 3600) + "h "@ + dec((idle % 3600) / 60) + "m"@
    } else if idle >= 60 {
        dec(idle / 60) + "m "@ + dec(idle % 60) + "s"@
    } else {
        dec(idle) + "s"@
    }
}

/// The parameters after the first, joined by spaces.
pub open spec fn rest_text(ps: Seq<Seq<char>>) -> Seq<char> {
    if ps.len() > 0 { joined(ps.subrange(1, ps.len() as int)) } else { Seq::empty() }
}

pub open spec fn param_or_empty(ps: Seq<Seq<char>>, i: int) -> Seq<char> {
    if 0 <= i < ps.len() { ps[i] } else { Seq::empty() }
}

/// `pre + ps[1] + post`, shown in the current window, given `ps[1]`.
pub open spec fn about_first(ps: Seq<Seq<char>>, pre: Seq<char>, post: Seq<char>) -> Option<(Seq<char>, bool)> {
    if ps.len() > 1 { Some((pre + ps[1] + post, false)) } else { None }
}

/// `pre + ps[1] + mid + ps[2]`, shown in the current window, given both.
pub open spec fn about_two(ps: Seq<Seq<char>>, pre: Seq<char>, mid: Seq<char>) -> Option<(Seq<char>, bool)> {
    if ps.len() > 2 { Some((pre + ps[1] + mid + ps[2], false)) } else { None }
}

/// The line a text-only numeric reply shows, and whether it goes to the
/// server window (else the current one); `None` when the parameters it
/// needs are missing (or, for an unknown numeric, when it has no text).
pub open spec fn spec_numeric_line(kind: NumericKind, num: u16, ps: Seq<Seq<char>>) -> Option<(Seq<char>, bool)> {
    let w = "[WHOIS] "@;
    match kind {
        NumericKind::Away => about_two(ps, w, " is away: "@),
        NumericKind::WhoisUser => if ps.len() > 3 {
            Some((w + ps[1] + " ("@ + ps[2] + "@"@ + ps[3] + ") - "@ + param_or_empty(ps, 5), false))
        } else {
            None
        },
        NumericKind::WhoisServer => if ps.len() > 2 {
            Some((w + ps[1] + " is on server "@ + ps[2] + " ("@ + param_or_empty(ps, 3) + ")"@, false))
        } else {
            None
        },
        NumericKind::WhoisOperator => about_first(ps, w, " is an IRC operator"@),
        NumericKind::WhoisIdle => if ps.len() > 2 {
            let idle = match parse_unsigned(ps[2], u64::MAX as nat) { Some(n) => n, None => 0 };
            Some((w + ps[1] + " has been idle for "@ + spec_idle_text(idle), false))
        } else {
            None
        },
        NumericKind::EndOfWhois => about_first(ps, "[WHOIS] End of WHOIS for "@, Seq::empty()),
        NumericKind::WhoisChannels => about_two(ps, w, " is on: "@),
        NumericKind::WhoisAccount => about_two(ps, w, " is logged in as "@),
        NumericKind::WhoisActually => if ps.len() > 2 {
            Some((w + ps[1] + " is actually using host "@ + ps[2] + " ("@ + param_or_empty(ps, 3) + ")"@, false))
        } else {
            None
        },
        NumericKind::WhoisMarks => about_two(ps, w, " "@),
        NumericKind::WhoisSecure => about_first(ps, w, " is using a secure connection"@),
        NumericKind::WhoisSpecial => about_two(ps, w, " - "@),
        NumericKind::WhoisCertfp => about_two(ps, w, " has TLS fingerprint: "@),
        NumericKind::WhoisRegnick => about_first(ps, w, " is a registered nick"@),
        NumericKind::WhoisBot => about_first(ps, w, " is a bot"@),
        NumericKind::WhoisHost => about_two(ps, w, " - "@),
        NumericKind::WhoisModes => about_two(ps, w, " is using modes "@),
        NumericKind::NoSuchNick => about_first(ps, "No such nick/channel: "@, Seq::empty()),
        NumericKind::NoSuchChannel => about_first(ps, "No such channel: "@, Seq::empty()),
        NumericKind::CannotSendToChan => about_first(ps, "Cannot send to channel: "@, Seq::empty()),
        NumericKind::NotOnChannel => about_first(ps, "You're not on that channel: "@, Seq::empty()),
        NumericKind::InviteOnlyChan => about_first(ps, "Cannot join "@, " (invite only)"@),
        NumericKind::BannedFromChan => about_first(ps, "Cannot join "@, " (banned)"@),
        NumericKind::BadChannelKey => if ps.len() > 1 {
            Some(("Cannot join "@ + ps[1] + " (bad or missing channel key). Use: /join "@ + ps[1] + " <key>"@, false))
        } else {
            None
        },
        NumericKind::QuietList => if ps.len() > 3 {
            Some(("[QUIET] "@ + ps[1] + " - "@ + ps[3], false))
        } else {
            None
        },
        NumericKind::EndOfQuietList => about_first(ps, "[QUIET] End of quiet list for "@, Seq::empty()),
        NumericKind::MonOnline => about_first(ps, "[MONITOR] Online: "@, Seq::empty()),
        NumericKind::MonOffline => about_first(ps, "[MONITOR] Offline: "@, Seq::empty()),
        NumericKind::MonList => about_first(ps, "[MONITOR] List: "@, Seq::empty()),
        NumericKind::EndOfMonList => Some(("[MONITOR] End of monitor list"@, false)),
        NumericKind::MonListFull => about_first(ps, "[MONITOR] List is full (limit: "@, ")"@),
        NumericKind::Metadata => Some(("[METADATA "@ + dec(num as nat) + "] "@ + rest_text(ps), true)),
        NumericKind::Bouncer => Some(("[BOUNCER "@ + dec(num as nat) + "] "@ + rest_text(ps), true)),
        NumericKind::Other => if rest_text(ps).len() > 0 {
            Some(("["@ + dec(num as nat) + "] "@ + rest_text(ps), false))
        } else {
            None
        },
    }
}

/// An idle time (see `spec_idle_text`).
pub fn idle_text(idle: u64) -> (r: String)
    ensures
        r@ == spec_idle_text(idle as nat),
{
    let mut r = String::new();
    if idle >= 3600 {
        push_dec(&mut r, idle / 3600);
        push_str(&mut r, "h ");
        push_dec(&mut r, (idle % 3600) / 60);
        push_str(&mut r, "m");
    } else if idle >= 60 {
        push_dec(&mut r, idle / 60);
        push_str(&mut r, "m ");
        push_dec(&mut r, idle % 60);
        push_str(&mut r, "s");
    } else {
        push_dec(&mut r, idle);
        push_str(&mut r, "s");
    }
    r
}

fn about_first_exec(params: &[String], pre: &str, post: &str) -> (r: Option<(String, bool)>)
    ensures
        match r {
            Some((t, s)) => about_first(views(params@), pre@, post@) == Some((t@, s)),
            None => about_first(views(params@), pre@, post@) is None,
        },
{
    if params.len() > 1 {
        assert(views(params@)[1] == params@[1]@);
        let mut t = to_string(pre);
        push_str(&mut t, params[1].as_str());
        push_str(&mut t, post);
        Some((t, false))
    } else {
        None
    }
}

fn about_two_exec(params: &[String], pre: &str, mid: &str) -> (r: Option<(String, bool)>)
    ensures
        match r {
            Some((t, s)) => about_two(views(params@), pre@, mid@) == Some((t@, s)),
            None => about_two(views(params@), pre@, mid@) is None,
        },
{
    if params.len() > 2 {
        assert(views(params@)[1] == params@[1]@);
        assert(views(params@)[2] == params@[2]@);
        let mut t = to_string(pre);
        push_str(&mut t, params[1].as_str());
        push_str(&mut t, mid);
        push_str(&mut t, params[2].as_str());
        Some((t, false))
    } else {
        None
    }
}

fn param_or_empty_exec(params: &[String], i: usize) -> (r: &str)
    ensures
        r@ == param_or_empty(views(params@), i as int),
{
    if i < params.len() {
        assert(views(params@)[i as int] == params@[i as int]@);
        params[i].as_str()
    } else {
        proof {
            reveal_strlit("");
        }
        ""
    }
}

fn rest_text_exec(params: &[String]) -> (r: String)
    ensures
        r@ == rest_text(views(params@)),
{
    let mut rest: Vec<String> = Vec::new();
    let mut i: usize = 1;
    let ghost ps = views(params@);
    while i < params.len()
        invariant
            1 <= i <= params.len() || params.len() == 0,
            ps == views(params@),
            params.len() > 0 ==> views(rest@) == ps.subrange(1, i as int),
            params.len() == 0 ==> rest@.len() == 0,
        decreases params.len() - i,
    {
        let ghost before = views(rest@);
        assert(ps[i as int] == params@[i as int]@);
        rest.push(params[i].clone());
        assert(views(rest@) =~= before.push(ps[i as int]));
        assert(ps.subrange(1, i as int + 1) =~= ps.subrange(1, i as int).push(ps[i as int]));
        i += 1;
    }
    let mut r = String::new();
    push_joined(&mut r, rest.as_slice());
    proof {
        if params.len() == 0 {
            assert(views(rest@) =~= Seq::<Seq<char>>::empty());
        }
    }
    r
}

/// The line of a text-only numeric reply (see `spec_numeric_line`).
pub fn numeric_line(kind: NumericKind, num: u16, params: &[String]) -> (r: Option<(String, bool)>)
    ensures
        match r {
            Some((t, s)) => spec_numeric_line(kind, num, views(params@)) == Some((t@, s)),
            None => spec_numeric_line(kind, num, views(params@)) is None,
        },
{
    let ghost ps = views(params@);
    proof {
        reveal_strlit("");
    }
    match kind {
        NumericKind::Away => about_two_exec(params, "[WHOIS] ", " is away: "),
        NumericKind::WhoisUser => if params.len() > 3 {
            assert(ps[1] == params@[1]@ && ps[2] == params@[2]@ && ps[3] == params@[3]@);
            let mut t = to_string("[WHOIS] ");
            push_str(&mut t, params[1].as_str());
            push_str(&mut t, " (");
            push_str(&mut t, params[2].as_str());
            push_str(&mut t, "@");
            push_str(&mut t, params[3].as_str());
            push_str(&mut t, ") - ");
            push_str(&mut t, param_or_empty_exec(params, 5));
            Some((t, false))
        } else {
            None
        },
        NumericKind::WhoisServer => if params.len() > 2 {
            assert(ps[1] == params@[1]@ && ps[2] == params@[2]@);
            let mut t = to_string("[WHOIS] ");
            push_str(&mut t, params[1].as_str());
            push_str(&mut t, " is on server ");
            push_str(&mut t, params[2].as_str());
            push_str(&mut t, " (");
            push_str(&mut t, param_or_empty_exec(params, 3));
            push_str(&mut t, ")");
            Some((t, false))
        } else {
            None
        },
        NumericKind::WhoisOperator => about_first_exec(params, "[WHOIS] ", " is an IRC operator"),
        NumericKind::WhoisIdle => if params.len() > 2 {
            assert(ps[1] == params@[1]@ && ps[2] == params@[2]@);
            let pv = chars_of(params[2].as_str());
            assert(pv@.subrange(0, pv@.len() as int) =~= pv@);
            let idle = match parse_unsigned_range(&pv, 0, pv.len(), u64::MAX) {
                Some(n) => n,
                None => 0,
            };
            let mut t = to_string("[WHOIS] ");
            push_str(&mut t, params[1].as_str());
            push_str(&mut t, " has been idle for ");
            push_str(&mut t, idle_text(idle).as_str());
            Some((t, false))
        } else {
            None
        },
        NumericKind::EndOfWhois => about_first_exec(params, "[WHOIS] End of WHOIS for ", ""),
        NumericKind::WhoisChannels => about_two_exec(params, "[WHOIS] ", " is on: "),
        NumericKind::WhoisAccount => about_two_exec(params, "[WHOIS] ", " is logged in as "),
        NumericKind::WhoisActually => if params.len() > 2 {
            assert(ps[1] == params@[1]@ && ps[2] == params@[2]@);
            let mut t = to_string("[WHOIS] ");
            push_str(&mut t, params[1].as_str());
            push_str(&mut t, " is actually using host ");
            push_str(&mut t, params[2].as_str());
            push_str(&mut t, " (");
            push_str(&mut t, param_or_empty_exec(params, 3));
            push_str(&mut t, ")");
            Some((t, false))
        } else {
            None
        },
        NumericKind::WhoisMarks => about_two_exec(params, "[WHOIS] ", " "),
        NumericKind::WhoisSecure => about_first_exec(params, "[WHOIS] ", " is using a secure connection"),
        NumericKind::WhoisSpecial => about_two_exec(params, "[WHOIS] ", " - "),
        NumericKind::WhoisCertfp => about_two_exec(params, "[WHOIS] ", " has TLS fingerprint: "),
        NumericKind::WhoisRegnick => about_first_exec(params, "[WHOIS] ", " is a registered nick"),
        NumericKind::WhoisBot => about_first_exec(params, "[WHOIS] ", " is a bot"),
        NumericKind::WhoisHost => about_two_exec(params, "[WHOIS] ", " - "),
        NumericKind::WhoisModes => about_two_exec(params, "[WHOIS] ", " is using modes "),
        NumericKind::NoSuchNick => about_first_exec(params, "No such nick/channel: ", ""),
        NumericKind::NoSuchChannel => about_first_exec(params, "No such channel: ", ""),
        NumericKind::CannotSendToChan => about_first_exec(params, "Cannot send to channel: ", ""),
        NumericKind::NotOnChannel => about_first_exec(params, "You're not on that channel: ", ""),
        NumericKind::InviteOnlyChan => about_first_exec(params, "Cannot join ", " (invite only)"),
        NumericKind::BannedFromChan => about_first_exec(params, "Cannot join ", " (banned)"),
        NumericKind::BadChannelKey => if params.len() > 1 {
            assert(ps[1] == params@[1]@);
            let mut t = to_string("Cannot join ");
            push_str(&mut t, params[1].as_str());
            push_str(&mut t, " (bad or missing channel key). Use: /join ");
            push_str(&mut t, params[1].as_str());
            push_str(&mut t, " <key>");
            Some((t, false))
        } else {
            None
        },
        NumericKind::QuietList => if params.len() > 3 {
            assert(ps[1] == params@[1]@ && ps[3] == params@[3]@);
            let mut t = to_string("[QUIET] ");
            push_str(&mut t, params[1].as_str());
            push_str(&mut t, " - ");
            push_str(&mut t, params[3].as_str());
            Some((t, false))
        } else {
            None
        },
        NumericKind::EndOfQuietList => about_first_exec(params, "[QUIET] End of quiet list for ", ""),
        NumericKind::MonOnline => about_first_exec(params, "[MONITOR] Online: ", ""),
        NumericKind::MonOffline => about_first_exec(params, "[MONITOR] Offline: ", ""),
        NumericKind::MonList => about_first_exec(params, "[MONITOR] List: ", ""),
        NumericKind::EndOfMonList => Some((to_string("[MONITOR] End of monitor list"), false)),
        NumericKind::MonListFull => about_first_exec(params, "[MONITOR] List is full (limit: ", ")"),
        NumericKind::Metadata | NumericKind::Bouncer => {
            let mut t = if kind == NumericKind::Metadata { to_string("[METADATA ") } else { to_string("[BOUNCER ") };
            push_dec(&mut t, num as u64);
            push_str(&mut t, "] ");
            push_str(&mut t, rest_text_exec(params).as_str());
            Some((t, true))
        },
        NumericKind::Other => {
            let rest = rest_text_exec(params);
            if chars_of(rest.as_str()).len() > 0 {
                let mut t = to_string("[");
                push_dec(&mut t, num as u64);
                push_str(&mut t, "] ");
                push_str(&mut t, rest.as_str());
                Some((t, false))
            } else {
                None
            }
        },
    }
}


/// A decimal timestamp parameter, 0 when it is not a `u64`.
pub open spec fn timestamp_param(t: Seq<char>) -> u64 {
    match parse_unsigned(t, u64::MAX as nat) {
        Some(n) => n as u64,
        None => 0,
    }
}

/// RPL_TOPICWHOTIME: the time the topic was set (see `timestamp_param`)
/// and the line `Topic set by <setter> on <date>` (`Unknown` for 0).
pub fn topic_set_note(setter: &str, timestamp: &str) -> (r: (u64, String))
    ensures
        r.0 == timestamp_param(timestamp@),
        r.1@ == "Topic set by "@ + setter@ + " on "@ + if r.0 == 0 {
            seq!['U', 'n', 'k', 'n', 'o', 'w', 'n']
        } else {
            timestamp_text(r.0 as nat)
        },
{
    let tv = chars_of(timestamp);
    assert(tv@.subrange(0, tv@.len() as int) =~= tv@);
    let ts = match parse_unsigned_range(&tv, 0, tv.len(), u64::MAX) {
        Some(n) => n,
        None => 0,
    };
    let mut t = to_string("Topic set by ");
    push_str(&mut t, setter);
    push_str(&mut t, " on ");
    push_str(&mut t, format_timestamp(ts).as_str());
    (ts, t)
}

} // verus!

//! Chat messages as kept in a channel's scrollback.

use vstd::prelude::*;

use crate::helpers::{clock_text, current_time_formatted, shift_saturating, utc_parts};
use crate::text::to_string;

verus! {

/// Whether `ts` is the user's clock display, in `format`, of some instant
/// (the local offset from UTC being `utc_offset_secs`).
pub open spec fn is_clock_stamp(ts: Seq<char>, format: Seq<char>, utc_offset_secs: int) -> bool {
    exists|now: nat| ts == clock_text(utc_parts(shift_saturating(now as int, utc_offset_secs) as nat), format)
}

/// A chat message with metadata.
#[derive(Debug, Clone)]
pub struct ChatMessage {
    pub timestamp: String,
    /// Canonical IRCv3 `time` tag retained for ordering and MARKREAD.
    pub server_time: Option<String>,
    /// Stable IRCv3 message identity retained for replay deduplication and REDACT.
    pub msgid: Option<String>,
    /// Authenticated sender identity from the IRCv3 `account` tag.
    pub account: Option<String>,
    /// Operator name from Nefarious `draft/oper-tag`.
    pub oper: Option<String>,
    /// Referenced message ID from `+reply` / legacy `+draft/reply`.
    pub reply_to: Option<String>,
    pub sender: String,
    pub content: String,
    pub is_action: bool,
    pub is_system: bool,
    pub is_highlight: bool,
    /// Display-only message (e.g. /lastlog results, /help): excluded from the
    /// on-disk chat log and from /lastlog searches.
    pub no_log: bool,
}

/// A message stamped now, with no IRCv3 metadata.
pub open spec fn fresh_message(m: ChatMessage, sender: Seq<char>, content: Seq<char>, action: bool,
    system: bool, highlight: bool, format: Seq<char>, utc_offset_secs: int) -> bool {
    &&& is_clock_stamp(m.timestamp@, format, utc_offset_secs)
    &&& m.server_time is None
    &&& m.msgid is None
    &&& m.account is None
    &&& m.oper is None
    &&& m.reply_to is None
    &&& m.sender@ == sender
    &&& m.content@ == content
    &&& m.is_action == action
    &&& m.is_system == system
    &&& m.is_highlight == highlight
    &&& !m.no_log
}

impl ChatMessage {
    fn stamped(sender: &str, content: &str, action: bool, system: bool, highlight: bool,
        format: &str, utc_offset_secs: i64) -> (r: Self)
        ensures
            fresh_message(r, sender@, content@, action, system, highlight, format@, utc_offset_secs as int),
    {
        ChatMessage {
            timestamp: current_time_formatted(format, utc_offset_secs),
            server_time: None,
            msgid: None,
            account: None,
            oper: None,
            reply_to: None,
            sender: to_string(sender),
            content: to_string(content),
            is_action: action,
            is_system: system,
            is_highlight: highlight,
            no_log: false,
        }
    }

    /// Mark this message as display-only (not logged, not searchable).
    pub fn without_logging(self) -> (r: Self)
        ensures
            r == (ChatMessage { no_log: true, ..self }),
    {
        let mut m = self;
        m.no_log = true;
        m
    }

    /// An ordinary message from `sender`, stamped now.
    pub fn new_fmt(sender: &str, content: &str, format: &str, utc_offset_secs: i64) -> (r: Self)
        ensures
            fresh_message(r, sender@, content@, false, false, false, format@, utc_offset_secs as int),
    {
        Self::stamped(sender, content, false, false, false, format, utc_offset_secs)
    }

    /// A local/system notice (sender `*`), stamped now.
    pub fn system_fmt(content: &str, format: &str, utc_offset_secs: i64) -> (r: Self)
        ensures
            fresh_message(r, seq!['*'], content@, false, true, false, format@, utc_offset_secs as int),
    {
        proof {
            reveal_strlit("*");
        }
        let r = Self::stamped("*", content, false, true, false, format, utc_offset_secs);
        assert(r.sender@ =~= seq!['*']);
        r
    }

    /// A CTCP ACTION (`/me`) from `sender`, stamped now.
    pub fn action_fmt(sender: &str, content: &str, format: &str, utc_offset_secs: i64) -> (r: Self)
        ensures
            fresh_message(r, sender@, content@, true, false, false, format@, utc_offset_secs as int),
    {
        Self::stamped(sender, content, true, false, false, format, utc_offset_secs)
    }

    /// A message from `sender` that mentions us, stamped now.
    pub fn highlighted_fmt(sender: &str, content: &str, format: &str, utc_offset_secs: i64) -> (r: Self)
        ensures
            fresh_message(r, sender@, content@, false, false, true, format@, utc_offset_secs as int),
    {
        Self::stamped(sender, content, false, false, true, format, utc_offset_secs)
    }

    /// An ACTION from `sender` that mentions us, stamped now.
    pub fn action_highlighted_fmt(sender: &str, content: &str, format: &str, utc_offset_secs: i64) -> (r: Self)
        ensures
            fresh_message(r, sender@, content@, true, false, true, format@, utc_offset_secs as int),
    {
        Self::stamped(sender, content, true, false, true, format, utc_offset_secs)
    }

    /// Override the timestamp with the server-provided time (IRCv3
    /// server-time) when there is one.
    pub fn with_server_time(self, server_time: Option<String>) -> (r: Self)
        ensures
            r == (match server_time {
                Some(t) => ChatMessage { timestamp: t, ..self },
                None => self,
            }),
    {
        let mut m = self;
        if let Some(time) = server_time {
            m.timestamp = time;
        }
        m
    }

    /// Attach the IRCv3 `time`, `msgid` and `account` tags.
    pub fn with_irc_metadata(self, server_time: Option<String>, msgid: Option<String>,
        account: Option<String>) -> (r: Self)
        ensures
            r == (ChatMessage { server_time: server_time, msgid: msgid, account: account, ..self }),
    {
        let mut m = self;
        m.server_time = server_time;
        m.msgid = msgid;
        m.account = account;
        m
    }

    /// Attach the operator name tag.
    pub fn with_oper(self, oper: Option<String>) -> (r: Self)
        ensures
            r == (ChatMessage { oper: oper, ..self }),
    {
        let mut m = self;
        m.oper = oper;
        m
    }

    /// Attach the id of the message this one replies to.
    pub fn with_reply_to(self, reply_to: Option<String>) -> (r: Self)
        ensures
            r == (ChatMessage { reply_to: reply_to, ..self }),
    {
        let mut m = self;
        m.reply_to = reply_to;
        m
    }
}

} // verus!

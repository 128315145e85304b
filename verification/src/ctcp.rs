//! Answers to CTCP requests (`\x01COMMAND args\x01` in a PRIVMSG).

use vstd::prelude::*;

use crate::commands::split_first_space;
use crate::text::{chars_eq, chars_of, find_char, push_str, string_from_range, to_string, to_uppercase, unicode_uppercase};

verus! {

/// Where the client's source code lives (the CTCP SOURCE answer).
pub const PROJECT_SOURCE_URL: &'static str = "https://github.com/faratech/linefeed";

/// The text between the `\x01` delimiters of a CTCP message: it needs two
/// distinct delimiters, so at least two characters.
pub open spec fn ctcp_body(content: Seq<char>) -> Option<Seq<char>> {
    if content.len() >= 2 && content[0] == '\u{1}' && content[content.len() - 1] == '\u{1}' {
        Some(content.subrange(1, content.len() - 1))
    } else {
        None
    }
}

/// The request's command, upper-cased.
pub open spec fn ctcp_command(body: Seq<char>) -> Seq<char> {
    unicode_uppercase(split_first_space(body).0)
}

/// The request's arguments: the text after the first space, if any.
pub open spec fn ctcp_args(body: Seq<char>) -> Seq<char> {
    match split_first_space(body).1 {
        Some(a) => a,
        None => Seq::empty(),
    }
}

/// A CTCP answer: the command, a space, the value, in delimiters.
pub open spec fn ctcp_frame(command: Seq<char>, value: Seq<char>) -> Seq<char> {
    seq!['\u{1}'] + command + seq![' '] + value + seq!['\u{1}']
}

/// The answer to a known request, given the client's version, the local
/// time as shown and the user's real name; `None` for an unknown one.
pub open spec fn spec_ctcp_reply(command: Seq<char>, args: Seq<char>, realname: Seq<char>, version: Seq<char>,
    local_time: Seq<char>) -> Option<Seq<char>> {
    if command == "VERSION"@ {
        Some(ctcp_frame("VERSION"@, "Linefeed v"@ + version + " - Rust/egui cross-platform IRC client"@))
    } else if command == "TIME"@ {
        Some(ctcp_frame("TIME"@, local_time))
    } else if command == "PING"@ {
        Some(ctcp_frame("PING"@, args))
    } else if command == "CLIENTINFO"@ {
        Some(ctcp_frame("CLIENTINFO"@, "ACTION PING VERSION TIME CLIENTINFO SOURCE USERINFO"@))
    } else if command == "SOURCE"@ {
        Some(ctcp_frame("SOURCE"@, PROJECT_SOURCE_URL@))
    } else if command == "USERINFO"@ {
        Some(ctcp_frame("USERINFO"@, realname))
    } else {
        None
    }
}

/// What a handled CTCP request leads to.
#[derive(Debug, Clone)]
pub struct CtcpOutcome {
    /// The NOTICE text to send back to the requester, if any.
    pub reply: Option<String>,
    /// The line noted in the current window.
    pub note: String,
}

/// The outcome of a request from `sender`: `None` when `content` is no
/// CTCP request (an ACTION is a message, not a request). A known request
/// is answered when replies are enabled, and noted either way; an unknown
/// one is only noted.
pub open spec fn spec_handle_ctcp(sender: Seq<char>, content: Seq<char>, realname: Seq<char>, replies_enabled: bool,
    version: Seq<char>, local_time: Seq<char>) -> Option<(Option<Seq<char>>, Seq<char>)> {
    match ctcp_body(content) {
        None => None,
        Some(body) => {
            let command = ctcp_command(body);
            if command == "ACTION"@ {
                None
            } else {
                match spec_ctcp_reply(command, ctcp_args(body), realname, version, local_time) {
                    Some(reply) => if replies_enabled {
                        Some((Some(reply), "[CTCP] "@ + command + " from "@ + sender + " - replied"@))
                    } else {
                        Some((None, "[CTCP] "@ + command + " from "@ + sender + " - ignored (replies disabled)"@))
                    },
                    None => Some((None, "[CTCP] Unknown "@ + command + " from "@ + sender)),
                }
            }
        },
    }
}

fn frame(command: &str, value: &str) -> (r: String)
    ensures
        r@ == ctcp_frame(command@, value@),
{
    let mut r = to_string("\u{1}");
    push_str(&mut r, command);
    push_str(&mut r, " ");
    push_str(&mut r, value);
    push_str(&mut r, "\u{1}");
    proof {
        reveal_strlit("\u{1}");
        reveal_strlit(" ");
    }
    assert(r@ =~= ctcp_frame(command@, value@));
    r
}

fn is_word(v: &Vec<char>, word: &str) -> (r: bool)
    ensures
        r == (v@ == word@),
{
    chars_eq(v, &chars_of(word))
}

/// The answer to a CTCP request (see `spec_ctcp_reply`).
pub fn ctcp_reply(command: &str, args: &str, realname: &str, version: &str, local_time: &str) -> (r: Option<String>)
    ensures
        match r {
            Some(t) => spec_ctcp_reply(command@, args@, realname@, version@, local_time@) == Some(t@),
            None => spec_ctcp_reply(command@, args@, realname@, version@, local_time@).is_none(),
        },
{
    let c = chars_of(command);
    if is_word(&c, "VERSION") {
        let mut value = to_string("Linefeed v");
        push_str(&mut value, version);
        push_str(&mut value, " - Rust/egui cross-platform IRC client");
        Some(frame("VERSION", value.as_str()))
    } else if is_word(&c, "TIME") {
        Some(frame("TIME", local_time))
    } else if is_word(&c, "PING") {
        Some(frame("PING", args))
    } else if is_word(&c, "CLIENTINFO") {
        Some(frame("CLIENTINFO", "ACTION PING VERSION TIME CLIENTINFO SOURCE USERINFO"))
    } else if is_word(&c, "SOURCE") {
        Some(frame("SOURCE", PROJECT_SOURCE_URL))
    } else if is_word(&c, "USERINFO") {
        Some(frame("USERINFO", realname))
    } else {
        None
    }
}

/// `lead` + `command` + " from " + `sender` + `tail`.
fn note_line(lead: &str, command: &str, sender: &str, tail: &str) -> (r: String)
    ensures
        r@ == lead@ + command@ + " from "@ + sender@ + tail@,
{
    let mut r = to_string(lead);
    push_str(&mut r, command);
    push_str(&mut r, " from ");
    push_str(&mut r, sender);
    push_str(&mut r, tail);
    r
}

/// Handle a CTCP request from `sender` (see `spec_handle_ctcp`). The
/// client's version and the local time (`YYYY-MM-DD HH:MM:SS`) are given by
/// the caller.
pub fn handle_ctcp_request(sender: &str, content: &str, realname: &str, replies_enabled: bool, version: &str,
    local_time: &str) -> (r: Option<CtcpOutcome>)
    ensures
        match r {
            Some(o) => spec_handle_ctcp(sender@, content@, realname@, replies_enabled, version@, local_time@)
                == Some((match o.reply { Some(t) => Some(t@), None => None::<Seq<char>> }, o.note@)),
            None => spec_handle_ctcp(sender@, content@, realname@, replies_enabled, version@, local_time@).is_none(),
        },
{
    let v = chars_of(content);
    let n = v.len();
    if n < 2 || v[0] != '\u{1}' || v[n - 1] != '\u{1}' {
        return None;
    }
    let body = string_from_range(&v, 1, n - 1);
    let bv = chars_of(body.as_str());
    proof {
        crate::text::lemma_find_from(bv@, ' ', 0);
        assert(bv@.subrange(0, bv@.len() as int) =~= bv@);
    }
    let (first, args) = match find_char(&bv, ' ', 0) {
        Some(k) => (string_from_range(&bv, 0, k), string_from_range(&bv, k + 1, bv.len())),
        None => (string_from_range(&bv, 0, bv.len()), String::new()),
    };
    let command = to_uppercase(first.as_str());
    if is_word(&chars_of(command.as_str()), "ACTION") {
        return None;
    }
    let cmd = command.as_str();
    match ctcp_reply(cmd, args.as_str(), realname, version, local_time) {
        Some(reply) => {
            if replies_enabled {
                let note = note_line("[CTCP] ", cmd, sender, " - replied");
                Some(CtcpOutcome { reply: Some(reply), note })
            } else {
                let note = note_line("[CTCP] ", cmd, sender, " - ignored (replies disabled)");
                Some(CtcpOutcome { reply: None, note })
            }
        },
        None => {
            let note = note_line("[CTCP] Unknown ", cmd, sender, "");
            proof {
                reveal_strlit("");
                assert(note@ =~= "[CTCP] Unknown "@ + cmd@ + " from "@ + sender@);
            }
            Some(CtcpOutcome { reply: None, note })
        },
    }
}

} // verus!

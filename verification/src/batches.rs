//! Incoming IRCv3 batches: `draft/multiline` messages collected line by
//! line into one message, and `draft/authtoken` tokens collected chunk by
//! chunk.

use vstd::prelude::*;

use crate::channel::{clone_opt, opt_view};
use crate::commands::split_on;
use crate::message::{fresh_message, ChatMessage};
use crate::network::{spec_is_channel, spec_network_canonicalize, NetworkSupport};
use crate::outgoing::{batch_lines, continued};
use crate::session::{
    flatten_chunks, lemma_payload_chunks, payload_chunks, spec_strip_status_prefix, strip_status_prefix,
};
use crate::text::{chars_of, eq_ignore_ascii_case, push_char, push_str, range_eq_ignore_ascii_case, string_from_range, to_string};

verus! {

/// A `draft/multiline` batch being received.
#[derive(Debug, Clone)]
pub struct MultilineBatch {
    pub target: String,
    pub sender: String,
    /// The text collected so far.
    pub content: String,
    /// Whether a line has been collected.
    pub has_lines: bool,
    /// Whether the lines came as NOTICEs.
    pub is_notice: bool,
    /// The CHATHISTORY batch this one is nested in, if any.
    pub parent_history: Option<String>,
    pub server_time: Option<String>,
    pub msgid: Option<String>,
    pub account: Option<String>,
    pub oper: Option<String>,
    pub reply_to: Option<String>,
}

/// The text after collecting `line`: a line that does not continue the
/// previous one (no `draft/multiline-concat`) starts after a newline.
pub open spec fn collected(content: Seq<char>, has_lines: bool, line: Seq<char>, concat: bool) -> Seq<char> {
    (if has_lines && !concat { content.push('\n') } else { content }) + line
}

/// The text (and whether it has a line) after collecting `lines` (each with
/// its concat flag), starting from `st`.
pub open spec fn assemble_from(st: (Seq<char>, bool), lines: Seq<(Seq<char>, bool)>) -> (Seq<char>, bool)
    decreases lines.len(),
{
    if lines.len() == 0 {
        st
    } else {
        let before = assemble_from(st, lines.drop_last());
        (collected(before.0, before.1, lines.last().0, lines.last().1), true)
    }
}

/// The text of a batch made of `lines`.
pub open spec fn assembled(lines: Seq<(Seq<char>, bool)>) -> Seq<char> {
    assemble_from((Seq::empty(), false), lines).0
}

/// Whether `c` is a CTCP ACTION (`\x01ACTION text\x01`).
pub open spec fn is_ctcp_action(c: Seq<char>) -> bool {
    c.len() >= 9 && c.take(8) == "\u{1}ACTION "@ && c[c.len() - 1] == '\u{1}'
}

/// The text a finished batch shows: a NOTICE as `-sender- text`, an ACTION
/// without its CTCP framing.
pub open spec fn batch_display_text(sender: Seq<char>, content: Seq<char>, is_notice: bool) -> Seq<char> {
    let body = if is_ctcp_action(content) { content.subrange(8, content.len() - 1) } else { content };
    if is_notice { "-"@ + sender + "- "@ + body } else { body }
}

impl MultilineBatch {
    /// A batch opened by `sender` for `target`, with the opener's tags.
    pub fn new(target: String, sender: String, parent_history: Option<String>, server_time: Option<String>,
        msgid: Option<String>, account: Option<String>, oper: Option<String>, reply_to: Option<String>) -> (r: Self)
        ensures
            r == (MultilineBatch {
                target,
                sender,
                content: r.content,
                has_lines: false,
                is_notice: false,
                parent_history,
                server_time,
                msgid,
                account,
                oper,
                reply_to,
            }),
            r.content@.len() == 0,
    {
        MultilineBatch {
            target,
            sender,
            content: String::new(),
            has_lines: false,
            is_notice: false,
            parent_history,
            server_time,
            msgid,
            account,
            oper,
            reply_to,
        }
    }

    /// Collect one PRIVMSG/NOTICE line of the batch; `concat` says whether it
    /// carried `draft/multiline-concat`.
    pub fn collect_line(&mut self, line: &str, is_notice: bool, concat: bool)
        ensures
            final(self).content@ == collected(old(self).content@, old(self).has_lines, line@, concat),
            *final(self) == (MultilineBatch {
                content: final(self).content,
                has_lines: true,
                is_notice,
                ..*old(self)
            }),
    {
        if self.has_lines && !concat {
            push_char(&mut self.content, '\n');
        }
        push_str(&mut self.content, line);
        self.has_lines = true;
        self.is_notice = is_notice;
    }

    /// The message a finished batch becomes: a NOTICE as a system line
    /// `-sender- text`, an ACTION as an action, else a plain message; it
    /// carries the opener's IRCv3 tags.
    pub fn into_message(self, format: &str, utc_offset_secs: i64) -> (r: ChatMessage)
        ensures
            exists|base: ChatMessage| {
                &&& fresh_message(base, if self.is_notice { seq!['*'] } else { self.sender@ },
                    batch_display_text(self.sender@, self.content@, self.is_notice),
                    !self.is_notice && is_ctcp_action(self.content@), self.is_notice, false, format@,
                    utc_offset_secs as int)
                &&& r == (ChatMessage {
                    server_time: self.server_time,
                    msgid: self.msgid,
                    account: self.account,
                    oper: self.oper,
                    reply_to: self.reply_to,
                    ..base
                })
            },
    {
        let v = chars_of(self.content.as_str());
        let n = v.len();
        let is_action = n >= 9 && v[0] == '\u{1}' && v[1] == 'A' && v[2] == 'C' && v[3] == 'T' && v[4] == 'I'
            && v[5] == 'O' && v[6] == 'N' && v[7] == ' ' && v[n - 1] == '\u{1}';
        proof {
            reveal_strlit("\u{1}ACTION ");
            if n >= 9 {
                let t = v@.take(8);
                assert("\u{1}ACTION "@ =~= seq!['\u{1}', 'A', 'C', 'T', 'I', 'O', 'N', ' ']);
                assert(t[0] == v@[0] && t[1] == v@[1] && t[2] == v@[2] && t[3] == v@[3]);
                assert(t[4] == v@[4] && t[5] == v@[5] && t[6] == v@[6] && t[7] == v@[7]);
                if is_action {
                    assert(t =~= "\u{1}ACTION "@);
                }
            }
        }
        assert(is_action == is_ctcp_action(self.content@));
        let body = if is_action { string_from_range(&v, 8, n - 1) } else { to_string(self.content.as_str()) };
        let base = if self.is_notice {
            let mut text = to_string("-");
            push_str(&mut text, self.sender.as_str());
            push_str(&mut text, "- ");
            push_str(&mut text, body.as_str());
            ChatMessage::system_fmt(text.as_str(), format, utc_offset_secs)
        } else if is_action {
            ChatMessage::action_fmt(self.sender.as_str(), body.as_str(), format, utc_offset_secs)
        } else {
            ChatMessage::new_fmt(self.sender.as_str(), body.as_str(), format, utc_offset_secs)
        };
        let ghost b = base;
        base.with_irc_metadata(self.server_time, self.msgid, self.account).with_oper(self.oper).with_reply_to(self.reply_to)
    }

    /// The window a finished batch belongs to: its target without a status
    /// prefix, or, for a private message to us, the sender's query.
    pub fn destination(&self, support: &NetworkSupport, my_nick: &str) -> (r: String)
        ensures
            ({
                let t = spec_strip_status_prefix(support, self.target@);
                let to_us = !spec_is_channel(support.channel_types@, t)
                    && spec_network_canonicalize(support.case_mapping, support.channel_types@, t)
                        == spec_network_canonicalize(support.case_mapping, support.channel_types@, my_nick@);
                r@ == if to_us { self.sender@ } else { t }
            }),
    {
        let t = strip_status_prefix(support, self.target.as_str());
        if !support.is_channel(t) && support.identifiers_equal(t, my_nick) {
            self.sender.clone()
        } else {
            to_string(t)
        }
    }
}

/// Logical lines joined by newlines.
pub open spec fn joined_lines(ls: Seq<Seq<char>>) -> Seq<char>
    decreases ls.len(),
{
    if ls.len() == 0 {
        Seq::empty()
    } else if ls.len() == 1 {
        ls[0]
    } else {
        joined_lines(ls.drop_last()).push('\n') + ls.last()
    }
}

proof fn lemma_assemble_append(st: (Seq<char>, bool), a: Seq<(Seq<char>, bool)>, b: Seq<(Seq<char>, bool)>)
    ensures
        assemble_from(st, a + b) == assemble_from(assemble_from(st, a), b),
    decreases b.len(),
{
    if b.len() == 0 {
        assert(a + b =~= a);
    } else {
        lemma_assemble_append(st, a, b.drop_last());
        assert((a + b).drop_last() =~= a + b.drop_last());
        assert((a + b).last() == b.last());
    }
}

proof fn lemma_flatten_push(cs: Seq<Seq<char>>, x: Seq<char>)
    ensures
        flatten_chunks(cs.push(x)) == flatten_chunks(cs) + x,
    decreases cs.len(),
{
    if cs.len() == 0 {
        assert(cs.push(x).drop_first() =~= Seq::<Seq<char>>::empty());
        assert(flatten_chunks(cs.push(x)) == x + flatten_chunks(Seq::<Seq<char>>::empty()));
        assert(x + Seq::<char>::empty() =~= x);
        assert(Seq::<char>::empty() + x =~= x);
    } else {
        lemma_flatten_push(cs.drop_first(), x);
        assert(cs.push(x).drop_first() =~= cs.drop_first().push(x));
        assert(cs.push(x)[0] == cs[0]);
        assert(cs[0] + (flatten_chunks(cs.drop_first()) + x) =~= (cs[0] + flatten_chunks(cs.drop_first())) + x);
    }
}

/// Collecting the pieces of one cut line (the first not continuing, the
/// rest continuing) adds the whole line, after a newline when something
/// was collected before.
proof fn lemma_assemble_continued(st: (Seq<char>, bool), cs: Seq<Seq<char>>)
    requires
        cs.len() > 0,
    ensures
        assemble_from(st, continued(cs)) == ((if st.1 { st.0.push('\n') } else { st.0 }) + flatten_chunks(cs), true),
    decreases cs.len(),
{
    let lead = if st.1 { st.0.push('\n') } else { st.0 };
    if cs.len() == 1 {
        assert(continued(cs).drop_last() =~= Seq::<(Seq<char>, bool)>::empty());
        assert(assemble_from(st, Seq::<(Seq<char>, bool)>::empty()) == st);
        assert(continued(cs).last() == (cs[0], false));
        assert(cs.drop_first() =~= Seq::<Seq<char>>::empty());
        assert(flatten_chunks(cs) == cs[0] + flatten_chunks(Seq::<Seq<char>>::empty()));
        assert(cs[0] + Seq::<char>::empty() =~= cs[0]);
    } else {
        let init = cs.drop_last();
        lemma_assemble_continued(st, init);
        assert(continued(cs).drop_last() =~= continued(init));
        assert(continued(cs).last() == (cs.last(), true));
        lemma_flatten_push(init, cs.last());
        assert(init.push(cs.last()) =~= cs);
        assert(lead + flatten_chunks(init) + cs.last() =~= lead + (flatten_chunks(init) + cs.last()));
    }
}

proof fn lemma_joined_split(s: Seq<char>)
    ensures
        joined_lines(split_on(s, '\n')) == s,
        split_on(s, '\n').len() >= 1,
    decreases s.len(),
{
    if s.len() == 0 {
        assert(split_on(s, '\n') =~= seq![Seq::<char>::empty()]);
        assert(joined_lines(seq![Seq::<char>::empty()]) == Seq::<char>::empty());
        assert(s =~= Seq::<char>::empty());
    } else {
        let r = split_on(s.drop_last(), '\n');
        lemma_joined_split(s.drop_last());
        if s.last() == '\n' {
            let t = r.push(Seq::<char>::empty());
            assert(t.drop_last() =~= r);
            assert(joined_lines(t) == joined_lines(r).push('\n') + Seq::<char>::empty());
            assert(s.drop_last().push('\n') + Seq::<char>::empty() =~= s);
        } else {
            let w = r.last().push(s.last());
            let t = r.update(r.len() - 1, w);
            if r.len() == 1 {
                assert(t.len() == 1 && t[0] == w);
                assert(joined_lines(r) == r[0]);
                assert(s.drop_last().push(s.last()) =~= s);
            } else {
                assert(t.drop_last() =~= r.drop_last());
                assert(t.last() == w);
                assert(joined_lines(r) == joined_lines(r.drop_last()).push('\n') + r.last());
                assert(joined_lines(r.drop_last()).push('\n') + w =~= (joined_lines(r.drop_last()).push('\n') + r.last()).push(s.last()));
                assert(s.drop_last().push(s.last()) =~= s);
            }
        }
    }
}

proof fn lemma_assemble_batch(ls: Seq<Seq<char>>, n: int, max: nat)
    requires
        1 <= n <= ls.len(),
        batch_lines(ls, n, max) is Some,
    ensures
        assemble_from((Seq::empty(), false), batch_lines(ls, n, max).unwrap()) == (joined_lines(ls.take(n)), true),
    decreases n,
{
    let a = batch_lines(ls, n - 1, max).unwrap();
    let l = ls[n - 1];
    let st0 = (Seq::<char>::empty(), false);
    let before = assemble_from(st0, a);
    if n == 1 {
        assert(a =~= Seq::<(Seq<char>, bool)>::empty());
        assert(before == st0);
        assert(ls.take(1) =~= seq![l]);
    } else {
        lemma_assemble_batch(ls, n - 1, max);
        assert(ls.take(n).drop_last() =~= ls.take(n - 1));
        assert(ls.take(n).last() == l);
    }
    let piece = if l.len() == 0 {
        seq![(Seq::<char>::empty(), false)]
    } else {
        continued(payload_chunks(l, max).unwrap())
    };
    assert(batch_lines(ls, n, max).unwrap() == a + piece);
    lemma_assemble_append(st0, a, piece);
    let lead = if before.1 { before.0.push('\n') } else { before.0 };
    if l.len() == 0 {
        assert(piece.drop_last() =~= Seq::<(Seq<char>, bool)>::empty());
        assert(assemble_from(before, Seq::<(Seq<char>, bool)>::empty()) == before);
        assert(piece.last() == (Seq::<char>::empty(), false));
        assert(assemble_from(before, piece) == (lead + Seq::<char>::empty(), true));
        assert(lead + Seq::<char>::empty() =~= lead + l);
    } else {
        let cs = payload_chunks(l, max).unwrap();
        lemma_payload_chunks(l, max);
        lemma_assemble_continued(before, cs);
        if cs.len() == 0 {
            assert(flatten_chunks(cs) == Seq::<char>::empty());
        }
    }
}

/// A text sent as a `draft/multiline` batch comes back whole: collecting
/// the batch lines (newline unless `multiline-concat`) gives the text that
/// was sent.
pub proof fn lemma_multiline_round_trip(full: Seq<char>, max: nat)
    requires
        batch_lines(split_on(full, '\n'), split_on(full, '\n').len() as int, max) is Some,
    ensures
        assembled(batch_lines(split_on(full, '\n'), split_on(full, '\n').len() as int, max).unwrap()) == full,
{
    let ls = split_on(full, '\n');
    lemma_joined_split(full);
    lemma_assemble_batch(ls, ls.len() as int, max);
    assert(ls.take(ls.len() as int) =~= ls);
}

/// A `draft/authtoken` batch being received.
#[derive(Debug, Clone)]
pub struct AuthtokenBatch {
    /// The service the token is for.
    pub service: String,
    /// The token collected so far.
    pub token: String,
}

/// Whether a batch line is `TOKEN GENERATE ...` (ASCII case-insensitively).
pub open spec fn is_token_line(command: Seq<char>, params: Seq<Seq<char>>) -> bool {
    eq_ignore_ascii_case(command, "TOKEN"@) && params.len() > 0 && eq_ignore_ascii_case(params[0], "GENERATE"@)
}

impl AuthtokenBatch {
    /// Collect one line of the batch: a `TOKEN GENERATE <service> <chunk>`
    /// line appends its chunk (when it has one) and is consumed; any other
    /// line is not.
    pub fn collect_line(&mut self, command: &str, params: &[String]) -> (consumed: bool)
        ensures
            consumed == is_token_line(command@, crate::text::views(params@)),
            final(self).service == old(self).service,
            final(self).token@ == if consumed && params@.len() > 2 { old(self).token@ + params@[2]@ } else { old(self).token@ },
    {
        let c = chars_of(command);
        assert(c@.subrange(0, c@.len() as int) =~= c@);
        if !range_eq_ignore_ascii_case(&c, 0, c.len(), &chars_of("TOKEN")) || params.len() == 0 {
            return false;
        }
        let p0 = chars_of(params[0].as_str());
        assert(p0@.subrange(0, p0@.len() as int) =~= p0@);
        if !range_eq_ignore_ascii_case(&p0, 0, p0.len(), &chars_of("GENERATE")) {
            return false;
        }
        if params.len() > 2 {
            push_str(&mut self.token, params[2].as_str());
        }
        true
    }

    /// The notice a finished batch becomes, `[TOKEN GENERATE <service>]
    /// <token>`, kept out of the logs; nothing for an empty token.
    pub fn into_message(self, format: &str, utc_offset_secs: i64) -> (r: Option<ChatMessage>)
        ensures
            self.token@.len() == 0 ==> r is None,
            self.token@.len() > 0 ==> (r matches Some(m) && m.no_log && fresh_message(
                (ChatMessage { no_log: false, ..m }),
                seq!['*'],
                "[TOKEN GENERATE "@ + self.service@ + "] "@ + self.token@,
                false,
                true,
                false,
                format@,
                utc_offset_secs as int,
            )),
    {
        if self.token.as_str().is_empty() {
            return None;
        }
        let mut text = to_string("[TOKEN GENERATE ");
        push_str(&mut text, self.service.as_str());
        push_str(&mut text, "] ");
        push_str(&mut text, self.token.as_str());
        let m = ChatMessage::system_fmt(text.as_str(), format, utc_offset_secs);
        let ghost base = m;
        let r = m.without_logging();
        assert(ChatMessage { no_log: false, ..r } == base);
        Some(r)
    }
}

} // verus!

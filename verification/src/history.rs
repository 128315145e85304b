//! IRCv3 CHATHISTORY: which page to ask for, what a finished page leads
//! to, and how a page joins a window's scrollback.

use vstd::prelude::*;

use crate::channel::{clone_opt, has_msgid, opt_view, Channel, ChannelView};
use crate::message::ChatMessage;
use crate::numfmt::{dec, push_dec};
use crate::session::{history_page_limit, message_reference, spec_message_reference};
use crate::text::{push_str, to_string};

verus! {

/// Where a history page goes in the window.
#[derive(Debug, Clone, Copy, PartialEq, Eq, Structural)]
pub enum HistoryPlacement {
    /// Before what the window shows (backlog).
    Prepend,
    /// After it (catching up after a reconnect).
    Append,
}

/// Which way the pages walk.
#[derive(Debug, Clone, Copy, PartialEq, Eq, Structural)]
pub enum HistoryDirection {
    Before,
    After,
}

/// A CHATHISTORY request awaiting its batch.
#[derive(Debug, Clone, Copy, PartialEq, Eq, Structural)]
pub struct PendingHistoryRequest {
    pub placement: HistoryPlacement,
    pub direction: HistoryDirection,
    /// Lines still wanted.
    pub remaining: usize,
    /// Lines loaded so far.
    pub loaded: usize,
    /// The page size asked for.
    pub page_limit: usize,
}

/// The page size for `remaining` lines, given the server's limit.
pub open spec fn page_size(remaining: usize, chathistory_limit: Option<usize>) -> usize {
    let limit = match chathistory_limit {
        Some(l) => l,
        None => 100usize,
    };
    let capped = if remaining < limit { remaining } else { limit };
    if capped < 1 { 1 } else { capped }
}

/// The newest reference among `msgs[..n]`, scanning back from the end.
pub open spec fn newest_reference(msgs: Seq<ChatMessage>, n: int) -> Option<Seq<char>>
    decreases n,
{
    if n <= 0 || n > msgs.len() {
        None
    } else if spec_message_reference(msgs[n - 1]) is Some {
        spec_message_reference(msgs[n - 1])
    } else {
        newest_reference(msgs, n - 1)
    }
}

/// The first CHATHISTORY request for `total` lines: appended history
/// continues after the newest message with a reference (`AFTER`), anything
/// else asks for the latest (`LATEST *`, walking backwards).
pub open spec fn spec_latest_request(placement: HistoryPlacement, msgs: Seq<ChatMessage>, total: usize,
    chathistory_limit: Option<usize>) -> (Seq<char>, PendingHistoryRequest) {
    let reference = if placement == HistoryPlacement::Append {
        match newest_reference(msgs, msgs.len() as int) {
            Some(r) => r,
            None => seq!['*'],
        }
    } else {
        seq!['*']
    };
    let after = placement == HistoryPlacement::Append && reference != seq!['*'];
    (reference, PendingHistoryRequest {
        placement,
        direction: if after { HistoryDirection::After } else { HistoryDirection::Before },
        remaining: total,
        loaded: 0,
        page_limit: page_size(total, chathistory_limit),
    })
}

impl Channel {
    /// The first CHATHISTORY request for `total` lines of this window (see
    /// `spec_latest_request`): the reference to ask from and the request
    /// to track.
    pub fn latest_history_request(&self, placement: HistoryPlacement, total: usize, chathistory_limit: Option<usize>)
        -> (r: (String, PendingHistoryRequest))
        ensures
            (r.0@, r.1) == spec_latest_request(placement, self@.messages, total, chathistory_limit),
    {
        let msgs = self.scrollback();
        let mut reference = to_string("*");
        proof {
            reveal_strlit("*");
            reveal_strlit("msgid=");
            reveal_strlit("timestamp=");
        }
        let mut found = false;
        if placement == HistoryPlacement::Append {
            let mut i = msgs.len();
            while i > 0 && !found
                invariant
                    i <= msgs@.len(),
                    msgs@ == self@.messages,
                    !found ==> reference@ == seq!['*'],
                    !found ==> newest_reference(msgs@, msgs@.len() as int) == newest_reference(msgs@, i as int),
                    found ==> Some(reference@) == newest_reference(msgs@, msgs@.len() as int),
                    found ==> reference@.len() >= 6,
                decreases i,
            {
                proof {
                    reveal_strlit("msgid=");
                    reveal_strlit("timestamp=");
                }
                match message_reference(&msgs[i - 1]) {
                    Some(r) => {
                        reference = r;
                        found = true;
                    },
                    None => {},
                }
                i -= 1;
            }
        }
        let after = placement == HistoryPlacement::Append && found;
        assert(after == (placement == HistoryPlacement::Append && reference@ != seq!['*']));
        let limit = history_page_limit(total, chathistory_limit);
        let request = PendingHistoryRequest {
            placement,
            direction: if after { HistoryDirection::After } else { HistoryDirection::Before },
            remaining: total,
            loaded: 0,
            page_limit: limit,
        };
        (reference, request)
    }
}

/// The line that closes a history load: how many lines came, and whether
/// the server reported a partial result or more is available.
pub open spec fn history_status(loaded: usize, partial: bool, more: bool) -> Seq<char> {
    let base = if loaded == 0 {
        "--- No server history available ---"@
    } else if loaded == 1 {
        "--- 1 line of server history loaded ---"@
    } else {
        "--- "@ + dec(loaded as nat) + " lines of server history loaded ---"@
    };
    base + if partial {
        " (server reports a partial result)"@
    } else if more {
        " (more history is available)"@
    } else {
        Seq::<char>::empty()
    }
}

/// What a finished page of `page` messages leads to: the next request (its
/// reference and the request to track) while more is wanted and the
/// server has more, else the closing status line. A page shorter than
/// asked for, or a batch the server marked complete, ends the walk.
pub open spec fn spec_page_outcome(request: PendingHistoryRequest, page: Seq<ChatMessage>, complete: bool,
    partial: bool, chathistory_limit: Option<usize>) -> Result<(Seq<char>, PendingHistoryRequest), Seq<char>> {
    let n = page.len();
    let remaining: usize = if request.remaining >= n { (request.remaining - n) as usize } else { 0 };
    let loaded: usize = if request.loaded + n > usize::MAX { usize::MAX } else { (request.loaded + n) as usize };
    let done = complete || n < request.page_limit;
    let next_ref = if n == 0 {
        None
    } else if request.direction == HistoryDirection::Before {
        spec_message_reference(page[0])
    } else {
        spec_message_reference(page[n - 1])
    };
    if !partial && !done && remaining > 0 && next_ref is Some {
        Ok((next_ref.unwrap(), PendingHistoryRequest {
            remaining,
            loaded,
            page_limit: page_size(remaining, chathistory_limit),
            ..request
        }))
    } else {
        Err(history_status(loaded, partial, !done && remaining > 0))
    }
}

/// What a finished CHATHISTORY page leads to (see `spec_page_outcome`).
pub fn history_page_outcome(request: PendingHistoryRequest, page: &Vec<ChatMessage>, complete: bool, partial: bool,
    chathistory_limit: Option<usize>) -> (r: Result<(String, PendingHistoryRequest), String>)
    ensures
        spec_page_outcome(request, page@, complete, partial, chathistory_limit) == match r {
            Ok((reference, next)) => Ok((reference@, next)),
            Err(status) => Err(status@),
        },
{
    let n = page.len();
    let remaining = if request.remaining >= n { request.remaining - n } else { 0 };
    let loaded = request.loaded.saturating_add(n);
    let done = complete || n < request.page_limit;
    let next_ref = if n == 0 {
        None
    } else if request.direction == HistoryDirection::Before {
        message_reference(&page[0])
    } else {
        message_reference(&page[n - 1])
    };
    if !partial && !done && remaining > 0 {
        match next_ref {
            Some(reference) => {
                let limit = history_page_limit(remaining, chathistory_limit);
                return Ok((reference, PendingHistoryRequest { remaining, loaded, page_limit: limit, ..request }));
            },
            None => {},
        }
    }
    let mut status = if loaded == 0 {
        to_string("--- No server history available ---")
    } else if loaded == 1 {
        to_string("--- 1 line of server history loaded ---")
    } else {
        let mut s = to_string("--- ");
        push_dec(&mut s, loaded as u64);
        push_str(&mut s, " lines of server history loaded ---");
        s
    };
    if partial {
        push_str(&mut status, " (server reports a partial result)");
    } else if !done && remaining > 0 {
        push_str(&mut status, " (more history is available)");
    } else {
        proof {
            reveal_strlit("");
        }
        assert(status@ + Seq::<char>::empty() =~= status@);
    }
    Err(status)
}

/// The messages of a history page not already in the window (by IRCv3
/// message id).
pub open spec fn fresh_history(existing: Seq<ChatMessage>, h: Seq<ChatMessage>) -> Seq<ChatMessage> {
    h.filter(|m: ChatMessage| match m.msgid {
        Some(id) => !has_msgid(existing, id@),
        None => true,
    })
}

/// The scrollback after a history page joins it: the new messages go
/// before (or after) what was there, and the oldest lines beyond `max` are
/// dropped.
pub open spec fn merged_history(existing: Seq<ChatMessage>, h: Seq<ChatMessage>, placement: HistoryPlacement,
    max: nat) -> Seq<ChatMessage> {
    let kept = fresh_history(existing, h);
    let all = if placement == HistoryPlacement::Prepend { kept + existing } else { existing + kept };
    if all.len() > max { all.skip(all.len() - max) } else { all }
}

/// The server time of the newest message among `msgs[..n]` that has one.
pub open spec fn newest_server_time(msgs: Seq<ChatMessage>, n: int) -> Option<Seq<char>>
    decreases n,
{
    if n <= 0 || n > msgs.len() {
        None
    } else if msgs[n - 1].server_time is Some {
        opt_view(msgs[n - 1].server_time)
    } else {
        newest_server_time(msgs, n - 1)
    }
}

/// The read marker to send for a window: `timestamp=<newest server time>`,
/// unless there is none or it is the marker already recorded.
pub open spec fn spec_pending_read_marker(c: ChannelView) -> Option<Seq<char>> {
    match newest_server_time(c.messages, c.messages.len() as int) {
        Some(t) => {
            let marker = "timestamp="@ + t;
            if c.read_marker == Some(marker) { None } else { Some(marker) }
        },
        None => None,
    }
}

impl Channel {
    /// The read marker (MARKREAD) that would advance the server's record of
    /// what was read here, if any (see `spec_pending_read_marker`).
    pub fn pending_read_marker(&self) -> (r: Option<String>)
        ensures
            opt_view(r) == spec_pending_read_marker(self@),
    {
        let msgs = self.scrollback();
        let mut i = msgs.len();
        let mut found: Option<String> = None;
        while i > 0 && found.is_none()
            invariant
                i <= msgs@.len(),
                msgs@ == self@.messages,
                found is None ==> newest_server_time(msgs@, msgs@.len() as int) == newest_server_time(msgs@, i as int),
                found is Some ==> opt_view(found) == newest_server_time(msgs@, msgs@.len() as int),
            decreases i,
        {
            found = clone_opt(&msgs[i - 1].server_time);
            i -= 1;
        }
        match found {
            Some(t) => {
                let mut marker = to_string("timestamp=");
                push_str(&mut marker, t.as_str());
                let same = match self.read_marker_text() {
                    Some(current) => *current == marker,
                    None => false,
                };
                if same { None } else { Some(marker) }
            },
            None => None,
        }
    }
}

} // verus!

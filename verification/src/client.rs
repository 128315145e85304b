//! The client's windows as server events change them: each event is a step
//! from the state to the next state and the actions the caller performs
//! (lines to show, commands to send, a window to focus).

use vstd::prelude::*;

use crate::casemap::{CaseMapping, UserMode};
use crate::channel::{
    add_user_effect, account_set, burst_begun, empty_channel, merged_snapshot, names_applied, opt_view, realname_set,
    rebuilt_params, reply_modes, sorted_add, sorted_perm, without_member, Channel, ChannelView, find_member, renamed,
    same_nick, upsert_entry, away_set, without_msgid,
};
use crate::ctcp::{ctcp_body, ctcp_command};
use crate::helpers::timestamp_text;
use crate::incoming::{
    action_text, ctcp_reply_note, join_note, kick_note, nick_note, notice_window, numeric_line, part_note,
    privmsg_notification, privmsg_window, quit_note, same_identifier, spec_action_text, spec_ctcp_reply,
    spec_ctcp_reply_note, spec_join_note, spec_kick_note, spec_nick_note, spec_notice_window, spec_numeric_line,
    spec_part_note, spec_privmsg_notification, spec_privmsg_window, spec_quit_note, spec_status_message_text,
    status_message_text, timestamp_param, topic_set_note, NumericKind, reaction_text, reaction_window, redaction_note,
    spec_reaction_text, spec_reaction_window, spec_redaction_note, spec_standard_reply_text, spec_standard_reply_window,
    standard_reply_text, standard_reply_window, nick_in_use, registration_error, spec_nick_in_use,
    spec_registration_error, RegistrationReply, RegistrationReplyView,
};
use crate::message::ChatMessage;
use crate::modes::{effects_applied, joined, mode_note, mode_note_text, push_joined, spec_mode_effects};
use crate::network::{apply_tokens, is_default_support, spec_is_channel, spec_network_canonicalize, NetworkSupport};
use crate::session::{
    check_nick_mention, initial_nickname, is_ignored, spec_check_nick_mention, spec_highlight_keys, spec_initial_nickname,
    spec_is_ignored, spec_strip_status_prefix, strip_status_prefix,
};
use crate::session::{clamp_quit_reason, spec_clamp_quit_reason, spec_reconnect_delay, ConnectionIntent, ReconnectState};
use crate::listing::{parse_list_reply, spec_parse_list_reply};
use crate::slash::{
    spec_auto_join_targets, spec_auto_perform_commands, add_ignore, add_perform, has_ignore_key, help_lines, keep_other_keys, keys_of, remove_ignore, spec_help_lines,
    spec_lastlog, spec_perform_listing, CommandPlan, IrcCommand,
};
use crate::commands::{service_message_contains_credentials, spec_service_message_contains_credentials};
use crate::numfmt::{dec, dec_chars_u128, push_chars, push_dec};
use crate::text::{chars_of, push_str, to_string, views, words};

verus! {

/// The windows of the client and what events need to know of it.
pub struct ClientState {
    /// Channel and query windows by name, in the order they were opened.
    pub windows: Vec<(String, Channel)>,
    pub current: Option<String>,
    pub my_nick: String,
    pub hide_join_part: bool,
    pub support: NetworkSupport,
    /// Ignore entries (nicks or masks) and their case-mapped keys, entry by entry.
    pub ignore_list: Vec<String>,
    pub ignore_keys: Vec<String>,
    /// Case-mapped highlight words.
    pub highlight_keys: Vec<String>,
    /// Invitations to us, oldest first: (who invited, channel).
    pub pending_invites: Vec<(String, String)>,
    pub session: Session,
}

/// The connection, away status and automation that commands and
/// registration replies change.
pub struct Session {
    /// Whether a connection is open to send through: a command is sent
    /// exactly when one is.
    pub online: bool,
    pub reconnect: ReconnectState,
    pub intent: ConnectionIntent,
    pub channel_list_loading: bool,
    /// `None` = not away, `Some(msg)` = away with message.
    pub away_status: Option<String>,
    pub auto_away_triggered: bool,
    /// Alternative nicks tried during registration.
    pub nick_retry_attempts: u32,
    /// Channels joined on connect, comma-separated.
    pub auto_join: String,
    /// Commands run on connect, one per line.
    pub auto_perform: String,
    pub set_invisible: bool,
    /// The highlight words as configured, comma-separated.
    pub highlight_words: String,
}

pub struct SessionView {
    pub online: bool,
    pub reconnect: ReconnectState,
    pub intent: ConnectionIntent,
    pub channel_list_loading: bool,
    pub away_status: Option<Seq<char>>,
    pub auto_away_triggered: bool,
    pub nick_retry_attempts: u32,
    pub auto_join: Seq<char>,
    pub auto_perform: Seq<char>,
    pub set_invisible: bool,
    pub highlight_words: Seq<char>,
}

impl View for Session {
    type V = SessionView;

    open spec fn view(&self) -> SessionView {
        SessionView {
            online: self.online,
            reconnect: self.reconnect,
            intent: self.intent,
            channel_list_loading: self.channel_list_loading,
            away_status: opt_view(self.away_status),
            auto_away_triggered: self.auto_away_triggered,
            nick_retry_attempts: self.nick_retry_attempts,
            auto_join: self.auto_join@,
            auto_perform: self.auto_perform@,
            set_invisible: self.set_invisible,
            highlight_words: self.highlight_words@,
        }
    }
}

/// What the client starts from: the user's settings.
pub struct ClientSettings {
    pub nickname: String,
    pub hide_join_part: bool,
    pub ignore_list: Vec<String>,
    pub highlight_words: String,
    pub auto_join: String,
    pub auto_perform: String,
    pub set_invisible: bool,
    pub auto_reconnect: bool,
    pub reconnect_delay_secs: u32,
    pub max_reconnect_attempts: u32,
}

/// The client state as plain values.
pub struct ClientView {
    pub windows: Seq<(Seq<char>, ChannelView)>,
    pub current: Option<Seq<char>>,
    pub my_nick: Seq<char>,
    pub hide_join_part: bool,
    pub support: NetworkSupport,
    pub ignore_list: Seq<Seq<char>>,
    pub ignore_keys: Seq<Seq<char>>,
    pub highlight_keys: Seq<Seq<char>>,
    pub pending_invites: Seq<(Seq<char>, Seq<char>)>,
    pub session: SessionView,
}

impl View for ClientState {
    type V = ClientView;

    open spec fn view(&self) -> ClientView {
        ClientView {
            windows: self.windows@.map_values(|w: (String, Channel)| (w.0@, w.1@)),
            current: match self.current {
                Some(c) => Some(c@),
                None => None,
            },
            my_nick: self.my_nick@,
            hide_join_part: self.hide_join_part,
            support: self.support,
            ignore_list: views(self.ignore_list@),
            ignore_keys: views(self.ignore_keys@),
            highlight_keys: views(self.highlight_keys@),
            pending_invites: self.pending_invites@.map_values(|p: (String, String)| (p.0@, p.1@)),
            session: self.session@,
        }
    }
}

/// What the caller does after an event.
#[derive(Debug, Clone, PartialEq, Eq)]
pub enum ClientAction<S, L> {
    /// A system line for the named window (opened if needed).
    NoteIn(S, S),
    /// A system line for the server window.
    NoteServer(S),
    /// A system line for the current window.
    NoteCurrent(S),
    /// Send `text` to the target as a message (split to fit, echoed).
    Message(S, S),
    /// Send a command.
    Send(IrcCommand<S, L>),
    /// Make the named window the current one.
    Focus(S),
    /// Show a message from `sender` in `window` (opened if needed); `action`
    /// marks a `/me` line, `highlight` one that mentions us.
    Deliver { window: S, sender: S, text: S, action: bool, highlight: bool },
    /// A desktop notification; `force` shows it even while the window is focused.
    Notify { title: S, body: S, force: bool },
    /// A CTCP request from `sender`, to be answered with `ctcp::handle_ctcp_request`.
    CtcpRequest(S, S),
    /// A system line for the server window, kept out of the log.
    NoteServerUnlogged(S),
    /// A system line for the current window, kept out of the log.
    NoteCurrentUnlogged(S),
    /// Send `text` to the target as messages (split to fit), without an echo.
    SendText(S, S),
    /// Send `text` to the target as a CTCP ACTION (split to fit).
    SendAction(S, S),
    /// Send `text` to the target as notices (split to fit).
    SendNotice(S, S),
    /// Empty the server window.
    ClearServer,
    /// Write the settings to disk.
    SaveSettings,
    /// Show the settings dialog.
    OpenSettings,
    /// Ask the server for the latest history of `target`, or say it is unavailable.
    RequestHistory { target: S, limit: Option<usize> },
    /// Switch to this server (the configured port when `None`), dropping the
    /// old endpoint's credentials.
    SwitchServer { host: S, port: Option<S> },
    /// Show the current server in the current window.
    ShowServer,
    /// Empty the channel list and show it while a new listing arrives.
    ResetChannelList,
    /// One channel of a listing.
    ChannelListEntry { name: S, users: usize, topic: S },
    /// Search the server window for the pattern (as `slash::lastlog`).
    LastlogServer(S),
    /// Drop the connection (its worker stops).
    CloseConnection,
    /// Open a new connection.
    StartConnect,
    /// Run these commands, one after another.
    RunPerform(L),
    /// Start timing the lag probe just sent.
    StartLagCheck,
}

pub type ActionView = ClientAction<Seq<char>, Seq<Seq<char>>>;

impl View for ClientAction<String, Vec<String>> {
    type V = ActionView;

    open spec fn view(&self) -> ActionView {
        match self {
            ClientAction::NoteIn(w, t) => ClientAction::NoteIn(w@, t@),
            ClientAction::NoteServer(t) => ClientAction::NoteServer(t@),
            ClientAction::NoteCurrent(t) => ClientAction::NoteCurrent(t@),
            ClientAction::Message(a, b) => ClientAction::Message(a@, b@),
            ClientAction::Send(c) => ClientAction::Send(c@),
            ClientAction::Focus(w) => ClientAction::Focus(w@),
            ClientAction::Deliver { window, sender, text, action, highlight } => ClientAction::Deliver {
                window: window@,
                sender: sender@,
                text: text@,
                action: *action,
                highlight: *highlight,
            },
            ClientAction::Notify { title, body, force } => ClientAction::Notify { title: title@, body: body@, force: *force },
            ClientAction::CtcpRequest(a, b) => ClientAction::CtcpRequest(a@, b@),
            ClientAction::NoteServerUnlogged(t) => ClientAction::NoteServerUnlogged(t@),
            ClientAction::NoteCurrentUnlogged(t) => ClientAction::NoteCurrentUnlogged(t@),
            ClientAction::SendText(a, b) => ClientAction::SendText(a@, b@),
            ClientAction::SendAction(a, b) => ClientAction::SendAction(a@, b@),
            ClientAction::SendNotice(a, b) => ClientAction::SendNotice(a@, b@),
            ClientAction::ClearServer => ClientAction::ClearServer,
            ClientAction::SaveSettings => ClientAction::SaveSettings,
            ClientAction::OpenSettings => ClientAction::OpenSettings,
            ClientAction::RequestHistory { target, limit } => ClientAction::RequestHistory {
                target: target@,
                limit: *limit,
            },
            ClientAction::SwitchServer { host, port } => ClientAction::SwitchServer {
                host: host@,
                port: opt_view(*port),
            },
            ClientAction::ShowServer => ClientAction::ShowServer,
            ClientAction::ResetChannelList => ClientAction::ResetChannelList,
            ClientAction::ChannelListEntry { name, users, topic } => ClientAction::ChannelListEntry {
                name: name@,
                users: *users,
                topic: topic@,
            },
            ClientAction::LastlogServer(p) => ClientAction::LastlogServer(p@),
            ClientAction::CloseConnection => ClientAction::CloseConnection,
            ClientAction::StartConnect => ClientAction::StartConnect,
            ClientAction::RunPerform(l) => ClientAction::RunPerform(views(l@)),
            ClientAction::StartLagCheck => ClientAction::StartLagCheck,
        }
    }
}

pub open spec fn action_views(a: Seq<ClientAction<String, Vec<String>>>) -> Seq<ActionView> {
    a.map_values(|x: ClientAction<String, Vec<String>>| x@)
}

/// The first window, from `k` on, named `name` under the case mapping.
pub open spec fn window_from(v: ClientView, name: Seq<char>, k: int) -> Option<int>
    decreases v.windows.len() - k,
{
    if k < 0 || k >= v.windows.len() {
        None
    } else if same_identifier(&v.support, v.windows[k].0, name) {
        Some(k)
    } else {
        window_from(v, name, k + 1)
    }
}

/// The window named `name`, if one is open.
pub open spec fn window_of(v: ClientView, name: Seq<char>) -> Option<int> {
    window_from(v, name, 0)
}

/// `v` with the channel of window `i` replaced.
pub open spec fn with_channel(v: ClientView, i: int, c: ChannelView) -> ClientView {
    ClientView { windows: v.windows.update(i, (v.windows[i].0, c)), ..v }
}

/// `c2` is `c` once the pending NAMES snapshot is published (see
/// `Channel::finish_user_burst`).
pub open spec fn burst_finished(c: ChannelView, c2: ChannelView) -> bool {
    if c.names_snapshot.is_none() {
        c2 == ChannelView { burst_timed: false, ..c }
    } else {
        &&& sorted_perm(c.case_mapping, c2.users, merged_snapshot(c.case_mapping, c.names_snapshot.unwrap(), c.users))
        &&& c2 == ChannelView { users: c2.users, names_snapshot: None, burst_timed: false, ..c }
    }
}

/// The date shown for a topic time (`Unknown` for 0).
pub open spec fn stamp_or_unknown(ts: u64) -> Seq<char> {
    if ts == 0 { seq!['U', 'n', 'k', 'n', 'o', 'w', 'n'] } else { timestamp_text(ts as nat) }
}

/// The channel numerics handled here, given their parameters: topic 332,
/// topic setter 333, creation time 329, modes 324, NAMES 353 and its end
/// 366, a ban list entry 367 and the list's end 368, a WHO reply 352
/// (which tells whether a member is away).
pub open spec fn numeric_known(num: u16, ps: Seq<Seq<char>>) -> bool {
    ||| (num == 332 && ps.len() > 2)
    ||| (num == 333 && ps.len() > 3)
    ||| (num == 329 && ps.len() > 2)
    ||| (num == 324 && ps.len() > 2)
    ||| (num == 353 && ps.len() > 3)
    ||| (num == 366 && ps.len() > 1)
    ||| (num == 367 && ps.len() > 4)
    ||| (num == 368 && ps.len() > 1)
    ||| (num == 352 && ps.len() > 6)
}

/// The parameter that names the channel.
pub open spec fn numeric_key(num: u16) -> int {
    if num == 353 { 2 } else { 1 }
}

/// How a channel numeric changes the channel's view `c` into `c2`.
pub open spec fn numeric_change(num: u16, ps: Seq<Seq<char>>, support: NetworkSupport, gap_elapsed: bool,
    c: ChannelView, c2: ChannelView) -> bool {
    if num == 332 {
        c2 == ChannelView { topic: Some(ps[2]), ..c }
    } else if num == 333 {
        c2 == ChannelView { topic_set_by: Some(ps[2]), topic_set_time: Some(timestamp_param(ps[3])), ..c }
    } else if num == 329 {
        c2 == ChannelView { created: Some(timestamp_param(ps[2])), ..c }
    } else if num == 324 {
        let st = reply_modes(ps[2], 0, '+', 0, ps.subrange(3, ps.len() as int), support.chanmodes_a@,
            support.chanmodes_b@, support.chanmodes_c@, (Seq::empty(), Seq::empty()));
        c2 == ChannelView { modes: st.0, mode_parameters: st.1, mode_params: rebuilt_params(st.0, st.1), ..c }
    } else if num == 353 {
        c2 == names_applied(burst_begun(c, gap_elapsed), &support, words(ps[3]))
    } else if num == 366 {
        burst_finished(c, c2)
    } else if num == 367 {
        c2 == ChannelView { bans: upsert_entry(c.bans, ps[2], ps[3], timestamp_param(ps[4])), ..c }
    } else if num == 352 {
        let away = if ps[6].len() > 0 && ps[6][0] == 'G' { Some("Away"@) } else { None };
        c2 == ChannelView {
            users: away_set(c.case_mapping, c.users, ps[5], away),
            names_snapshot: match c.names_snapshot {
                Some(s) => Some(away_set(c.case_mapping, s, ps[5], away)),
                None => None,
            },
            ..c
        }
    } else {
        c2 == ChannelView { ban_list_complete: true, ..c }
    }
}

/// The line a channel numeric shows in the channel's window.
pub open spec fn numeric_note(num: u16, ps: Seq<Seq<char>>) -> Option<Seq<char>> {
    if num == 332 {
        Some("Topic: "@ + ps[2])
    } else if num == 333 {
        Some("Topic set by "@ + ps[2] + " on "@ + stamp_or_unknown(timestamp_param(ps[3])))
    } else {
        None
    }
}

/// After the end of a NAMES list of a channel, WHO is sent for it.
pub open spec fn numeric_who(num: u16, ps: Seq<Seq<char>>, support: NetworkSupport) -> Seq<ActionView> {
    if num == 366 && spec_is_channel(support.channel_types@, ps[1]) {
        seq![ActionView::Send(IrcCommand::Who(ps[1]))]
    } else {
        Seq::empty()
    }
}

pub open spec fn note_actions(window: Seq<char>, note: Option<Seq<char>>) -> Seq<ActionView> {
    match note {
        Some(t) => seq![ActionView::NoteIn(window, t)],
        None => Seq::empty(),
    }
}

/// The channel numerics, and the end of a WHO list, which is silent.
pub open spec fn is_channel_numeric(num: u16) -> bool {
    num == 332 || num == 333 || num == 329 || num == 324 || num == 353 || num == 366 || num == 367 || num == 368
        || num == 352 || num == 315
}

/// The numerics of registration, the MOTD and the channel list: welcome,
/// ISUPPORT, the MOTD, the channel list, and nick and registration errors.
pub open spec fn is_session_numeric(num: u16) -> bool {
    num == 1 || num == 5 || (321 <= num <= 323) || num == 372 || num == 375 || num == 376 || (431 <= num <= 433)
        || num == 436 || num == 464 || num == 465
}

/// The kind of a text-only numeric reply.
pub open spec fn numeric_kind_of(num: u16) -> NumericKind {
    if num == 301 { NumericKind::Away }
    else if num == 311 { NumericKind::WhoisUser }
    else if num == 312 { NumericKind::WhoisServer }
    else if num == 313 { NumericKind::WhoisOperator }
    else if num == 317 { NumericKind::WhoisIdle }
    else if num == 318 { NumericKind::EndOfWhois }
    else if num == 319 { NumericKind::WhoisChannels }
    else if num == 330 { NumericKind::WhoisAccount }
    else if num == 338 { NumericKind::WhoisActually }
    else if num == 671 { NumericKind::WhoisSecure }
    else if num == 320 { NumericKind::WhoisSpecial }
    else if num == 276 { NumericKind::WhoisCertfp }
    else if num == 307 { NumericKind::WhoisRegnick }
    else if num == 335 { NumericKind::WhoisBot }
    else if num == 378 { NumericKind::WhoisHost }
    else if num == 379 { NumericKind::WhoisModes }
    else if num == 401 { NumericKind::NoSuchNick }
    else if num == 403 { NumericKind::NoSuchChannel }
    else if num == 404 { NumericKind::CannotSendToChan }
    else if num == 442 { NumericKind::NotOnChannel }
    else if num == 473 { NumericKind::InviteOnlyChan }
    else if num == 474 { NumericKind::BannedFromChan }
    else if num == 475 { NumericKind::BadChannelKey }
    else if num == 728 { NumericKind::QuietList }
    else if num == 729 { NumericKind::EndOfQuietList }
    else if num == 730 { NumericKind::MonOnline }
    else if num == 731 { NumericKind::MonOffline }
    else if num == 732 { NumericKind::MonList }
    else if num == 733 { NumericKind::EndOfMonList }
    else if num == 734 { NumericKind::MonListFull }
    else if num == 760 || num == 761 || num == 762 || num == 766 || (770 <= num <= 772) || num == 774 {
        NumericKind::Metadata
    } else { NumericKind::Other }
}

/// What another numeric that changes no window asks of the caller: the
/// away replies' text goes to the server window; text-only replies show
/// their line (see `spec_numeric_line`).
pub open spec fn other_numeric_actions(num: u16, ps: Seq<Seq<char>>) -> Seq<ActionView> {
    if is_channel_numeric(num) {
        Seq::empty()
    } else if num == 305 || num == 306 {
        if ps.len() > 1 { seq![ActionView::NoteServer(ps[1])] } else { Seq::empty() }
    } else {
        match spec_numeric_line(numeric_kind_of(num), num, ps) {
            Some((t, server)) => seq![if server { ActionView::NoteServer(t) } else { ActionView::NoteCurrent(t) }],
            None => Seq::empty(),
        }
    }
}

/// How a numeric changes the state: a channel numeric only the named
/// channel's window, if it is open, with its line (`gap_elapsed` tells
/// whether a NAMES burst in progress was abandoned); the numerics of
/// registration, the MOTD and the channel list as
/// `session_numeric_applied` says; any other numeric changes nothing and
/// asks what `other_numeric_actions` says.
pub open spec fn numeric_applied(old: ClientView, num: u16, ps: Seq<Seq<char>>, gap_elapsed: bool, new: ClientView,
    acts: Seq<ActionView>) -> bool {
    if !numeric_known(num, ps) {
        if is_session_numeric(num) {
            session_numeric_applied(old, num, ps, new, acts)
        } else {
            new == old && acts == other_numeric_actions(num, ps)
        }
    } else {
        match window_of(old, ps[numeric_key(num)]) {
            Some(i) => {
                &&& new.windows.len() == old.windows.len()
                &&& new == with_channel(old, i, new.windows[i].1)
                &&& numeric_change(num, ps, old.support, gap_elapsed, old.windows[i].1, new.windows[i].1)
                &&& acts == note_actions(old.windows[i].0, numeric_note(num, ps)) + numeric_who(num, ps, old.support)
            },
            None => new == old && acts == numeric_who(num, ps, old.support),
        }
    }
}

proof fn lemma_first_member_window(ws: Seq<(Seq<char>, ChannelView)>, nick: Seq<char>, k: int)
    requires
        0 <= k,
    ensures
        match first_member_window(ws, nick, k) {
            Some(i) => k <= i < ws.len() && has_member(ws[i].1, nick),
            None => true,
        },
    decreases ws.len() - k,
{
    if k < ws.len() && !has_member(ws[k].1, nick) {
        lemma_first_member_window(ws, nick, k + 1);
    }
}

proof fn lemma_query_from(v: ClientView, nick: Seq<char>, k: int)
    requires
        0 <= k,
    ensures
        match query_from(v, nick, k) {
            Some(i) => k <= i < v.windows.len(),
            None => true,
        },
    decreases v.windows.len() - k,
{
    if k < v.windows.len() && !(!spec_is_channel(v.support.channel_types@, v.windows[k].0)
        && same_identifier(&v.support, v.windows[k].0, nick)) {
        lemma_query_from(v, nick, k + 1);
    }
}

proof fn lemma_window_from(v: ClientView, name: Seq<char>, k: int)
    requires
        0 <= k,
    ensures
        match window_from(v, name, k) {
            Some(i) => k <= i < v.windows.len(),
            None => true,
        },
    decreases v.windows.len() - k,
{
    if k < v.windows.len() && !same_identifier(&v.support, v.windows[k].0, name) {
        lemma_window_from(v, name, k + 1);
    }
}

impl ClientState {
    /// The state at start-up from the user's settings: no windows yet, the
    /// configured nickname (or `Linefeed_` and a drawn number when none is
    /// set), the default network support, the case-mapped ignore and
    /// highlight keys, and no connection.
    pub fn with_settings(settings: ClientSettings) -> (r: ClientState)
        ensures
            exists|suffix: nat| suffix < 10000 && r@.my_nick == spec_initial_nickname(settings.nickname@, suffix),
            r@.windows.len() == 0,
            r@.current.is_none(),
            r@.hide_join_part == settings.hide_join_part,
            is_default_support(r@.support),
            r@.ignore_list == views(settings.ignore_list@),
            r@.ignore_keys.len() == settings.ignore_list@.len(),
            forall|i: int| 0 <= i < settings.ignore_list@.len() ==> #[trigger] r@.ignore_keys[i]
                == spec_network_canonicalize(r@.support.case_mapping, r@.support.channel_types@,
                    settings.ignore_list@[i]@),
            r@.highlight_keys == spec_highlight_keys(&r@.support, settings.highlight_words@),
            r@.pending_invites.len() == 0,
            r@.session == (SessionView {
                online: false,
                reconnect: ReconnectState {
                    auto_reconnect: settings.auto_reconnect,
                    connected: false,
                    connecting: false,
                    connection_lost: false,
                    reconnect_attempts: 0,
                    max_reconnect_attempts: settings.max_reconnect_attempts,
                    reconnect_delay_secs: settings.reconnect_delay_secs,
                },
                intent: ConnectionIntent::Idle,
                channel_list_loading: false,
                away_status: None,
                auto_away_triggered: false,
                nick_retry_attempts: 0,
                auto_join: settings.auto_join@,
                auto_perform: settings.auto_perform@,
                set_invisible: settings.set_invisible,
                highlight_words: settings.highlight_words@,
            }),
    {
        let support = NetworkSupport::default();
        let ignore_keys = crate::session::ignore_keys(&support, settings.ignore_list.as_slice());
        let highlight_keys = crate::session::highlight_keys(&support, settings.highlight_words.as_str());
        let session = Session {
            online: false,
            reconnect: ReconnectState {
                auto_reconnect: settings.auto_reconnect,
                connected: false,
                connecting: false,
                connection_lost: false,
                reconnect_attempts: 0,
                max_reconnect_attempts: settings.max_reconnect_attempts,
                reconnect_delay_secs: settings.reconnect_delay_secs,
            },
            intent: ConnectionIntent::Idle,
            channel_list_loading: false,
            away_status: None,
            auto_away_triggered: false,
            nick_retry_attempts: 0,
            auto_join: settings.auto_join,
            auto_perform: settings.auto_perform,
            set_invisible: settings.set_invisible,
            highlight_words: settings.highlight_words,
        };
        let r = ClientState {
            windows: Vec::new(),
            current: None,
            my_nick: initial_nickname(settings.nickname.as_str()),
            hide_join_part: settings.hide_join_part,
            support,
            ignore_list: settings.ignore_list,
            ignore_keys,
            highlight_keys,
            pending_invites: Vec::new(),
            session,
        };
        assert(r@.windows =~= Seq::<(Seq<char>, ChannelView)>::empty());
        assert(r@.pending_invites =~= Seq::<(Seq<char>, Seq<char>)>::empty());
        r
    }
}

impl ClientState {
    /// The window named `name` (see `window_of`).
    pub fn find_window(&self, name: &str) -> (r: Option<usize>)
        ensures
            match r {
                Some(i) => window_of(self@, name@) == Some(i as int),
                None => window_of(self@, name@) is None,
            },
    {
        let key = self.support.canonicalize(name);
        let mut k: usize = 0;
        while k < self.windows.len()
            invariant
                k <= self.windows@.len(),
                key@ == crate::network::spec_network_canonicalize(self.support.case_mapping,
                    self.support.channel_types@, name@),
                window_of(self@, name@) == window_from(self@, name@, k as int),
            decreases self.windows@.len() - k,
        {
            let wk = self.support.canonicalize(self.windows[k].0.as_str());
            assert(self@.windows[k as int].0 == self.windows@[k as int].0@);
            if crate::text::chars_eq(&crate::text::chars_of(wk.as_str()), &crate::text::chars_of(key.as_str())) {
                return Some(k);
            }
            k += 1;
        }
        None
    }

    /// Take window `i` out to change its channel; `put_back` returns it.
    fn take_window(&mut self, i: usize) -> (r: (String, Channel))
        requires
            i < old(self).windows@.len(),
        ensures
            final(self).windows@ == old(self).windows@.remove(i as int),
            r == old(self).windows@[i as int],
            final(self).current == old(self).current,
            final(self).my_nick == old(self).my_nick,
            final(self).hide_join_part == old(self).hide_join_part,
            final(self).support == old(self).support,
            final(self).ignore_list == old(self).ignore_list,
            final(self).ignore_keys == old(self).ignore_keys,
            final(self).highlight_keys == old(self).highlight_keys,
            final(self).pending_invites == old(self).pending_invites,
            final(self).session == old(self).session,
    {
        self.windows.remove(i)
    }

    fn put_back(&mut self, i: usize, w: (String, Channel))
        requires
            i <= old(self).windows@.len(),
        ensures
            final(self).windows@ == old(self).windows@.insert(i as int, w),
            final(self).current == old(self).current,
            final(self).my_nick == old(self).my_nick,
            final(self).hide_join_part == old(self).hide_join_part,
            final(self).support == old(self).support,
            final(self).ignore_list == old(self).ignore_list,
            final(self).ignore_keys == old(self).ignore_keys,
            final(self).highlight_keys == old(self).highlight_keys,
            final(self).pending_invites == old(self).pending_invites,
            final(self).session == old(self).session,
    {
        self.windows.insert(i, w);
    }
}

proof fn lemma_replace_window(ws: Seq<(String, Channel)>, i: int, w: (String, Channel))
    requires
        0 <= i < ws.len(),
    ensures
        ws.remove(i).insert(i, w).map_values(|x: (String, Channel)| (x.0@, x.1@))
            == ws.map_values(|x: (String, Channel)| (x.0@, x.1@)).update(i, (w.0@, w.1@)),
{
    assert(ws.remove(i).insert(i, w).map_values(|x: (String, Channel)| (x.0@, x.1@))
        =~= ws.map_values(|x: (String, Channel)| (x.0@, x.1@)).update(i, (w.0@, w.1@)));
}


proof fn lemma_view_after_put_back(pre: ClientState, post: ClientState, i: int, w: (String, Channel))
    requires
        0 <= i < pre.windows@.len(),
        post.windows@ == pre.windows@.remove(i).insert(i, w),
        w.0 == pre.windows@[i].0,
        post.current == pre.current,
        post.my_nick == pre.my_nick,
        post.hide_join_part == pre.hide_join_part,
        post.support == pre.support,
        post.ignore_list == pre.ignore_list,
        post.ignore_keys == pre.ignore_keys,
        post.highlight_keys == pre.highlight_keys,
        post.pending_invites == pre.pending_invites,
        post.session == pre.session,
    ensures
        post@ == with_channel(pre@, i, w.1@),
        post@.windows.len() == pre@.windows.len(),
        post@.windows[i].1 == w.1@,
{
    lemma_replace_window(pre.windows@, i, w);
    assert(post@.windows =~= with_channel(pre@, i, w.1@).windows);
}

fn note_in(window: &String, text: String) -> (r: Vec<ClientAction<String, Vec<String>>>)
    ensures
        action_views(r@) == seq![ClientAction::<Seq<char>, Seq<Seq<char>>>::NoteIn(window@, text@)],
{
    let mut v: Vec<ClientAction<String, Vec<String>>> = Vec::new();
    v.push(ClientAction::NoteIn(window.clone(), text));
    assert(action_views(v@) =~= seq![ClientAction::<Seq<char>, Seq<Seq<char>>>::NoteIn(window@, text@)]);
    v
}

fn no_actions() -> (r: Vec<ClientAction<String, Vec<String>>>)
    ensures
        action_views(r@) == Seq::<ActionView>::empty(),
{
    let v: Vec<ClientAction<String, Vec<String>>> = Vec::new();
    assert(action_views(v@) =~= Seq::<ActionView>::empty());
    v
}

fn params_from(params: &[String], k: usize) -> (r: Vec<String>)
    requires
        k <= params@.len(),
    ensures
        views(r@) == views(params@).subrange(k as int, params@.len() as int),
{
    let mut out: Vec<String> = Vec::new();
    let mut i: usize = k;
    while i < params.len()
        invariant
            k <= i <= params@.len(),
            views(out@) == views(params@).subrange(k as int, i as int),
        decreases params@.len() - i,
    {
        let ghost before = views(out@);
        assert(views(params@)[i as int] == params@[i as int]@);
        out.push(params[i].clone());
        assert(views(out@) =~= before.push(views(params@)[i as int]));
        assert(views(params@).subrange(k as int, i + 1) =~= views(params@).subrange(k as int, i as int).push(views(params@)[i as int]));
        i += 1;
    }
    out
}

/// Change the channel of a known channel numeric; the line to show.
fn change_channel(ch: &mut Channel, num: u16, params: &[String], support: &NetworkSupport, gap_elapsed: bool,
    now: std::time::Instant) -> (note: Option<String>)
    requires
        numeric_known(num, views(params@)),
    ensures
        numeric_change(num, views(params@), *support, gap_elapsed, old(ch)@, final(ch)@),
        match note {
            Some(t) => numeric_note(num, views(params@)) == Some(t@),
            None => numeric_note(num, views(params@)) is None,
        },
{
    let ghost ps = views(params@);
    if num == 332 {
        assert(ps[2] == params@[2]@);
        ch.set_topic(Some(params[2].clone()));
        let mut t = to_string("Topic: ");
        crate::text::push_str(&mut t, params[2].as_str());
        Some(t)
    } else if num == 333 {
        assert(ps[2] == params@[2]@ && ps[3] == params@[3]@);
        let (ts, t) = topic_set_note(params[2].as_str(), params[3].as_str());
        ch.set_topic_setter(params[2].clone(), ts);
        Some(t)
    } else if num == 329 {
        assert(ps[2] == params@[2]@);
        let (ts, _) = topic_set_note("", params[2].as_str());
        ch.set_created(ts);
        None
    } else if num == 324 {
        assert(ps[2] == params@[2]@);
        let rest = params_from(params, 3);
        ch.set_channel_modes_from_reply(params[2].as_str(), rest.as_slice(), support);
        None
    } else if num == 353 {
        assert(ps[3] == params@[3]@);
        ch.apply_names_reply_at(params[3].as_str(), support, gap_elapsed, now);
        None
    } else if num == 366 {
        ch.finish_user_burst();
        None
    } else if num == 367 {
        assert(ps[2] == params@[2]@ && ps[3] == params@[3]@ && ps[4] == params@[4]@);
        let (ts, _) = topic_set_note("", params[4].as_str());
        ch.upsert_ban(params[2].clone(), params[3].clone(), ts);
        None
    } else if num == 352 {
        assert(ps[5] == params@[5]@ && ps[6] == params@[6]@);
        let flags = chars_of(params[6].as_str());
        let away = if flags.len() > 0 && flags[0] == 'G' {
            let a = to_string("Away");
            proof {
                reveal_strlit("Away");
            }
            Some(a)
        } else {
            None
        };
        ch.set_user_away(params[5].as_str(), away);
        None
    } else {
        ch.mark_ban_list_complete();
        None
    }
}

/// The kind of a text-only numeric reply (see `numeric_kind_of`).
fn numeric_kind(num: u16) -> (r: NumericKind)
    ensures
        r == numeric_kind_of(num),
{
    if num == 301 { NumericKind::Away }
    else if num == 311 { NumericKind::WhoisUser }
    else if num == 312 { NumericKind::WhoisServer }
    else if num == 313 { NumericKind::WhoisOperator }
    else if num == 317 { NumericKind::WhoisIdle }
    else if num == 318 { NumericKind::EndOfWhois }
    else if num == 319 { NumericKind::WhoisChannels }
    else if num == 330 { NumericKind::WhoisAccount }
    else if num == 338 { NumericKind::WhoisActually }
    else if num == 671 { NumericKind::WhoisSecure }
    else if num == 320 { NumericKind::WhoisSpecial }
    else if num == 276 { NumericKind::WhoisCertfp }
    else if num == 307 { NumericKind::WhoisRegnick }
    else if num == 335 { NumericKind::WhoisBot }
    else if num == 378 { NumericKind::WhoisHost }
    else if num == 379 { NumericKind::WhoisModes }
    else if num == 401 { NumericKind::NoSuchNick }
    else if num == 403 { NumericKind::NoSuchChannel }
    else if num == 404 { NumericKind::CannotSendToChan }
    else if num == 442 { NumericKind::NotOnChannel }
    else if num == 473 { NumericKind::InviteOnlyChan }
    else if num == 474 { NumericKind::BannedFromChan }
    else if num == 475 { NumericKind::BadChannelKey }
    else if num == 728 { NumericKind::QuietList }
    else if num == 729 { NumericKind::EndOfQuietList }
    else if num == 730 { NumericKind::MonOnline }
    else if num == 731 { NumericKind::MonOffline }
    else if num == 732 { NumericKind::MonList }
    else if num == 733 { NumericKind::EndOfMonList }
    else if num == 734 { NumericKind::MonListFull }
    else if num == 760 || num == 761 || num == 762 || num == 766 || (770 <= num && num <= 772) || num == 774 {
        NumericKind::Metadata
    } else { NumericKind::Other }
}

/// The actions for a numeric that changes no window (see `other_numeric_actions`).
fn other_numeric(num: u16, params: &[String]) -> (r: Vec<ClientAction<String, Vec<String>>>)
    ensures
        action_views(r@) == other_numeric_actions(num, views(params@)),
{
    let is_channel = num == 332 || num == 333 || num == 329 || num == 324 || num == 353 || num == 366 || num == 367
        || num == 368 || num == 352 || num == 315;
    if is_channel {
        return no_actions();
    }
    if num == 305 || num == 306 {
        if params.len() > 1 {
            assert(views(params@)[1] == params@[1]@);
            return one_action(ClientAction::NoteServer(params[1].clone()));
        }
        return no_actions();
    }
    match numeric_line(numeric_kind(num), num, params) {
        Some((t, server)) => if server {
            one_action(ClientAction::NoteServer(t))
        } else {
            one_action(ClientAction::NoteCurrent(t))
        },
        None => no_actions(),
    }
}

fn who_actions(num: u16, params: &[String], support: &NetworkSupport) -> (r: Vec<ClientAction<String, Vec<String>>>)
    requires
        num == 366 ==> params@.len() > 1,
    ensures
        action_views(r@) == numeric_who(num, views(params@), *support),
{
    let mut v = no_actions();
    if num == 366 && support.is_channel(params[1].as_str()) {
        assert(views(params@)[1] == params@[1]@);
        v.push(ClientAction::Send(IrcCommand::Who(params[1].clone())));
        assert(action_views(v@) =~= seq![ActionView::Send(IrcCommand::Who(views(params@)[1]))]);
    }
    v
}

impl ClientState {
    /// Apply a numeric as it arrives: the clock is read, and a NAMES line
    /// finds its burst abandoned when the channel's last timed line is over
    /// five seconds old (see `Channel::burst_gap_elapsed`).
    pub fn apply_numeric_now(&mut self, num: u16, params: &[String]) -> (acts: Vec<ClientAction<String, Vec<String>>>)
        ensures
            exists|gap_elapsed: bool| numeric_applied(old(self)@, num, views(params@), gap_elapsed, final(self)@,
                action_views(acts@)),
    {
        let now = crate::channel::instant_now();
        let gap_elapsed = if num == 353 && params.len() > 3 {
            let found = self.find_window(params[2].as_str());
            proof {
                lemma_window_from(self@, params@[2]@, 0);
            }
            match found {
                Some(i) => self.windows[i].1.burst_gap_elapsed(),
                None => false,
            }
        } else {
            false
        };
        self.apply_numeric(num, params, gap_elapsed, now)
    }

    /// Apply a channel numeric (see `numeric_applied`): `gap_elapsed` and
    /// `now` time a NAMES line as `Channel::apply_names_reply_at` does.
    pub fn apply_numeric(&mut self, num: u16, params: &[String], gap_elapsed: bool, now: std::time::Instant)
        -> (acts: Vec<ClientAction<String, Vec<String>>>)
        ensures
            numeric_applied(old(self)@, num, views(params@), gap_elapsed, final(self)@, action_views(acts@)),
    {
        let ghost ps = views(params@);
        let ghost pre = *self;
        let known = (num == 332 && params.len() > 2) || (num == 333 && params.len() > 3) || (num == 329 && params.len() > 2)
            || (num == 324 && params.len() > 2) || (num == 353 && params.len() > 3) || (num == 366 && params.len() > 1)
            || (num == 367 && params.len() > 4) || (num == 368 && params.len() > 1)
            || (num == 352 && params.len() > 6);
        if !known {
            let left = num == 1 || num == 5 || (321 <= num && num <= 323) || num == 372 || num == 375 || num == 376
                || (431 <= num && num <= 433) || num == 436 || num == 464 || num == 465;
            if left {
                return self.session_numeric(num, params);
            }
            return other_numeric(num, params);
        }
        let k: usize = if num == 353 { 2 } else { 1 };
        assert(ps[k as int] == params@[k as int]@);
        let found = self.find_window(params[k].as_str());
        proof {
            lemma_window_from(self@, ps[k as int], 0);
        }
        match found {
            None => who_actions(num, params, &self.support),
            Some(i) => {
                let (name, mut ch) = self.take_window(i);
                let note = change_channel(&mut ch, num, params, &self.support, gap_elapsed, now);
                let mut acts = match note {
                    Some(t) => note_in(&name, t),
                    None => no_actions(),
                };
                let ghost a = action_views(acts@);
                let mut who = who_actions(num, params, &self.support);
                let ghost w = action_views(who@);
                acts.append(&mut who);
                assert(action_views(acts@) =~= a + w);
                self.put_back(i, (name, ch));
                proof {
                    lemma_view_after_put_back(pre, *self, i as int, self.windows@[i as int]);
                }
                acts
            },
        }
    }
}


/// A server event that changes the windows or asks for delivery, as plain values.
#[derive(Debug, Clone)]
pub enum IncomingEvent<S, L> {
    /// `sender` joined `channel` (extended-join adds account and real name).
    Join { sender: S, channel: S, account: Option<S>, realname: Option<S> },
    Part { sender: S, channel: S, reason: Option<S> },
    Kick { sender: S, channel: S, kicked: S, reason: Option<S> },
    /// A topic change; `sender` is absent for a server-set topic.
    Topic { sender: Option<S>, channel: S, topic: Option<S> },
    /// A PRIVMSG; `prefix` is the sender's full prefix, if any.
    Privmsg { sender: S, prefix: Option<S>, target: S, text: S },
    Quit { sender: S, reason: Option<S> },
    /// `sender` is now known as `nick`.
    Nick { sender: S, nick: S },
    /// A MODE change of a channel or of our own user.
    Mode { sender: S, target: S, modes: Option<S>, params: L },
    /// A NOTICE; `echo_message` tells whether the server echoes our own,
    /// `connected` whether registration is complete, and `now_ms` the
    /// clock in milliseconds (for the latency of a CTCP PING reply).
    Notice { sender: S, prefix: Option<S>, target: S, text: S, echo_message: bool, connected: bool, now_ms: u128 },
    /// `sender` went away with a message (`Some`) or came back (away-notify).
    Away { sender: S, message: Option<S> },
    /// `sender` invited `target` to `channel`.
    Invite { sender: S, target: S, channel: S },
    /// `sender` logged in to `account` (`*`: logged out), from account-notify.
    Account { sender: S, account: S },
    /// `sender` changed their real name.
    Setname { sender: S, realname: S },
    /// `sender` changed their user name and host.
    Chghost { sender: S, user: S, host: S },
    /// A message to the members of `target` with at least `status`.
    StatusMessage { sender: S, status: char, target: S, text: S },
    /// The read marker of `target` moved (`None` clears it).
    Markread { target: S, timestamp: Option<S> },
    /// A reaction (a TAGMSG with `+draft/react`), possibly to message `reply_to`.
    Reaction { sender: S, target: S, reaction: S, reply_to: Option<S> },
    /// A standard reply (FAIL, WARN, NOTE).
    StandardReply { kind: S, command: S, code: S, context: L, description: S },
    /// Message `msgid` in `target` was redacted.
    Redact { target: S, msgid: S, reason: Option<S> },
}

pub type EventView = IncomingEvent<Seq<char>, Seq<Seq<char>>>;

impl View for IncomingEvent<String, Vec<String>> {
    type V = EventView;

    open spec fn view(&self) -> EventView {
        match self {
            IncomingEvent::Join { sender, channel, account, realname } => IncomingEvent::Join {
                sender: sender@,
                channel: channel@,
                account: opt_view(*account),
                realname: opt_view(*realname),
            },
            IncomingEvent::Part { sender, channel, reason } => IncomingEvent::Part {
                sender: sender@,
                channel: channel@,
                reason: opt_view(*reason),
            },
            IncomingEvent::Kick { sender, channel, kicked, reason } => IncomingEvent::Kick {
                sender: sender@,
                channel: channel@,
                kicked: kicked@,
                reason: opt_view(*reason),
            },
            IncomingEvent::Topic { sender, channel, topic } => IncomingEvent::Topic {
                sender: opt_view(*sender),
                channel: channel@,
                topic: opt_view(*topic),
            },
            IncomingEvent::Privmsg { sender, prefix, target, text } => IncomingEvent::Privmsg {
                sender: sender@,
                prefix: opt_view(*prefix),
                target: target@,
                text: text@,
            },
            IncomingEvent::Quit { sender, reason } => IncomingEvent::Quit { sender: sender@, reason: opt_view(*reason) },
            IncomingEvent::Nick { sender, nick } => IncomingEvent::Nick { sender: sender@, nick: nick@ },
            IncomingEvent::Mode { sender, target, modes, params } => IncomingEvent::Mode {
                sender: sender@,
                target: target@,
                modes: opt_view(*modes),
                params: views(params@),
            },
            IncomingEvent::Notice { sender, prefix, target, text, echo_message, connected, now_ms } => IncomingEvent::Notice {
                sender: sender@,
                prefix: opt_view(*prefix),
                target: target@,
                text: text@,
                echo_message: *echo_message,
                connected: *connected,
                now_ms: *now_ms,
            },
            IncomingEvent::Away { sender, message } => IncomingEvent::Away { sender: sender@, message: opt_view(*message) },
            IncomingEvent::Invite { sender, target, channel } => IncomingEvent::Invite {
                sender: sender@,
                target: target@,
                channel: channel@,
            },
            IncomingEvent::Account { sender, account } => IncomingEvent::Account { sender: sender@, account: account@ },
            IncomingEvent::Setname { sender, realname } => IncomingEvent::Setname { sender: sender@, realname: realname@ },
            IncomingEvent::Chghost { sender, user, host } => IncomingEvent::Chghost {
                sender: sender@,
                user: user@,
                host: host@,
            },
            IncomingEvent::StatusMessage { sender, status, target, text } => IncomingEvent::StatusMessage {
                sender: sender@,
                status: *status,
                target: target@,
                text: text@,
            },
            IncomingEvent::Markread { target, timestamp } => IncomingEvent::Markread {
                target: target@,
                timestamp: opt_view(*timestamp),
            },
            IncomingEvent::Reaction { sender, target, reaction, reply_to } => IncomingEvent::Reaction {
                sender: sender@,
                target: target@,
                reaction: reaction@,
                reply_to: opt_view(*reply_to),
            },
            IncomingEvent::StandardReply { kind, command, code, context, description } => IncomingEvent::StandardReply {
                kind: kind@,
                command: command@,
                code: code@,
                context: views(context@),
                description: description@,
            },
            IncomingEvent::Redact { target, msgid, reason } => IncomingEvent::Redact {
                target: target@,
                msgid: msgid@,
                reason: opt_view(*reason),
            },
        }
    }
}

/// The member list's status prefixes recognised on a JOIN.
pub open spec fn join_prefixes() -> Seq<char> {
    seq!['~', '&', '@', '%', '+']
}

/// `c2` is `c` with `nick` added as an ordinary member carrying the given
/// account and real name (see `Channel::add_user`).
pub open spec fn member_joined(c: ChannelView, nick: Seq<char>, account: Option<Seq<char>>, realname: Option<Seq<char>>,
    c2: ChannelView) -> bool {
    exists|c1: ChannelView| {
        &&& c1 == add_user_effect(c, nick, UserMode::Normal, join_prefixes(), c1.users)
        &&& sorted_add(c, nick, UserMode::Normal, join_prefixes(), c1.users)
        &&& c2 == ChannelView {
            users: realname_set(c1.case_mapping, account_set(c1.case_mapping, c1.users, nick, account), nick, realname),
            names_snapshot: match c1.names_snapshot {
                Some(s) => Some(realname_set(c1.case_mapping, account_set(c1.case_mapping, s, nick, account), nick, realname)),
                None => None,
            },
            ..c1
        }
    }
}

/// `c` without the member `nick` (see `Channel::remove_user`).
pub open spec fn member_left(c: ChannelView, nick: Seq<char>) -> ChannelView {
    ChannelView {
        users: without_member(c.case_mapping, c.users, nick),
        names_snapshot: match c.names_snapshot {
            Some(s) => Some(without_member(c.case_mapping, s, nick)),
            None => None,
        },
        ..c
    }
}

/// A new window for a channel we joined.
pub open spec fn joined_window(v: ClientView) -> ChannelView {
    ChannelView { case_mapping: v.support.case_mapping, joined: true, ..empty_channel() }
}

/// The line for a topic change.
pub open spec fn topic_change_note(sender: Option<Seq<char>>, topic: Option<Seq<char>>) -> Seq<char> {
    let t = match topic { Some(t) => t, None => Seq::empty() };
    match sender {
        Some(s) => s + " changed the topic to: "@ + t,
        None => "Topic: "@ + t,
    }
}

/// The window that becomes current when the current one closes: the first
/// open window, if any.
pub open spec fn first_window(ws: Seq<(Seq<char>, ChannelView)>) -> Option<Seq<char>> {
    if ws.len() > 0 { Some(ws[0].0) } else { None }
}

/// Whether `c` lists `nick` as a member.
pub open spec fn has_member(c: ChannelView, nick: Seq<char>) -> bool {
    find_member(c.case_mapping, c.users, nick).is_some()
}

/// A note for each window, in order, whose channel lists `nick`.
pub open spec fn presence_notes(ws: Seq<(Seq<char>, ChannelView)>, nick: Seq<char>, text: Seq<char>) -> Seq<ActionView>
    decreases ws.len(),
{
    if ws.len() == 0 {
        Seq::empty()
    } else {
        let rest = presence_notes(ws.drop_last(), nick, text);
        if has_member(ws.last().1, nick) {
            rest.push(ActionView::NoteIn(ws.last().0, text))
        } else {
            rest
        }
    }
}

/// A window after `nick` quit: they leave its member list if listed.
pub open spec fn quit_window(w: (Seq<char>, ChannelView), nick: Seq<char>) -> (Seq<char>, ChannelView) {
    if has_member(w.1, nick) {
        (w.0, member_left(w.1, nick))
    } else {
        w
    }
}

/// Whether a message is a CTCP request (an ACTION is a message, not a request).
pub open spec fn is_ctcp_request(text: Seq<char>) -> bool {
    match ctcp_body(text) {
        Some(b) => ctcp_command(b) != "ACTION"@,
        None => false,
    }
}

/// Our nick, case-mapped.
pub open spec fn my_nick_key(v: ClientView) -> Seq<char> {
    spec_network_canonicalize(v.support.case_mapping, v.support.channel_types@, v.my_nick)
}

/// What a PRIVMSG asks of the caller: nothing from an ignored sender; a CTCP
/// request is handed on; otherwise the message goes to its window (the
/// channel, or the sender's query for a private message), after a
/// notification for a private message or a highlight from someone else.
pub open spec fn privmsg_outcome(v: ClientView, sender: Seq<char>, prefix: Option<Seq<char>>, target: Seq<char>,
    text: Seq<char>) -> Seq<ActionView> {
    if spec_is_ignored(&v.support, v.ignore_list, v.ignore_keys, sender, prefix) {
        Seq::empty()
    } else if is_ctcp_request(text) {
        seq![ActionView::CtcpRequest(sender, text)]
    } else {
        let (window, private) = spec_privmsg_window(&v.support, v.my_nick, sender, target);
        let highlight = spec_check_nick_mention(&v.support, my_nick_key(v), v.highlight_keys, text);
        let shown = spec_action_text(text);
        let deliver = ActionView::Deliver {
            window: window,
            sender: sender,
            text: match shown { Some(t) => t, None => text },
            action: shown is Some,
            highlight: highlight,
        };
        let from_self = same_identifier(&v.support, sender, v.my_nick);
        match spec_privmsg_notification(private, highlight, from_self, sender, window, text) {
            Some((title, body, force)) => seq![ActionView::Notify { title: title, body: body, force: force }, deliver],
            None => seq![deliver],
        }
    }
}

/// `c2` is `c` after the member `o` became `n` (see `Channel::rename_user`):
/// if `n` is already another member the old entry is dropped, else renamed.
pub open spec fn member_renamed(c: ChannelView, o: Seq<char>, n: Seq<char>, c2: ChannelView) -> bool {
    let m = c.case_mapping;
    if !same_nick(m, o, n) && find_member(m, c.users, n).is_some() {
        &&& sorted_perm(m, c2.users, without_member(m, c.users, o))
        &&& c2 == ChannelView { users: c2.users, ..c }
    } else {
        &&& (if find_member(m, c.users, o).is_some() {
            sorted_perm(m, c2.users, renamed(m, c.users, o, n))
        } else {
            c2.users == c.users
        })
        &&& c2 == ChannelView {
            users: c2.users,
            names_snapshot: match c.names_snapshot {
                Some(s) => Some(renamed(m, s, o, n)),
                None => None,
            },
            ..c
        }
    }
}

/// The first query (non-channel) window, from `k` on, for `nick`.
pub open spec fn query_from(v: ClientView, nick: Seq<char>, k: int) -> Option<int>
    decreases v.windows.len() - k,
{
    if k < 0 || k >= v.windows.len() {
        None
    } else if !spec_is_channel(v.support.channel_types@, v.windows[k].0) && same_identifier(&v.support, v.windows[k].0, nick) {
        Some(k)
    } else {
        query_from(v, nick, k + 1)
    }
}

/// The query window that follows a rename from `o` to `n`: the query with
/// `o`, unless a window for `n` is already open.
pub open spec fn query_rekeyed(v: ClientView, o: Seq<char>, n: Seq<char>) -> Option<int> {
    if window_of(v, n).is_some() {
        None
    } else {
        query_from(v, o, 0)
    }
}

/// How a NICK from `sender` to `nick` changes the windows: every channel
/// listing them renames them (noted there), our own nick follows, and an
/// open query with them follows the new nick unless a window for it is
/// already open (noted in the query).
pub open spec fn nick_applied(old: ClientView, sender: Seq<char>, nick: Seq<char>, new: ClientView, acts: Seq<ActionView>) -> bool {
    let q = query_rekeyed(old, sender, nick);
    let notes = presence_notes(old.windows, sender, spec_nick_note(sender, nick));
    &&& new.windows.len() == old.windows.len()
    &&& forall|j: int| 0 <= j < old.windows.len() ==> (if has_member(old.windows[j].1, sender) {
        member_renamed(old.windows[j].1, sender, nick, #[trigger] new.windows[j].1)
    } else {
        new.windows[j].1 == old.windows[j].1
    })
    &&& forall|j: int| 0 <= j < old.windows.len() ==> #[trigger] new.windows[j].0 == if q == Some(j) {
        nick
    } else {
        old.windows[j].0
    }
    &&& new == (ClientView {
        windows: new.windows,
        my_nick: if same_identifier(&old.support, sender, old.my_nick) { nick } else { old.my_nick },
        current: match q {
            Some(k) => if old.current == Some(old.windows[k].0) { Some(nick) } else { old.current },
            None => old.current,
        },
        ..old
    })
    &&& acts == match q {
        Some(_) => notes.push(ActionView::NoteIn(nick, spec_nick_note(sender, nick))),
        None => notes,
    }
}

/// The line for a change of our own user modes.
pub open spec fn user_mode_note(sender: Seq<char>, mode: Seq<char>, params: Seq<Seq<char>>) -> Seq<char> {
    sender + " set user mode "@ + mode + if params.len() == 0 { Seq::empty() } else { seq![' '] + joined(params) }
}

/// How a MODE changes the windows: a channel's modes and member statuses
/// change as `Channel::apply_mode_effects` says, noted in its window; a
/// change of our own user modes is noted in the server window; anything
/// else, or a MODE without a mode string, changes nothing.
pub open spec fn mode_applied(old: ClientView, sender: Seq<char>, target: Seq<char>, modes: Option<Seq<char>>,
    params: Seq<Seq<char>>, new: ClientView, acts: Seq<ActionView>) -> bool {
    match modes {
        None => new == old && acts == Seq::<ActionView>::empty(),
        Some(mode) => if spec_is_channel(old.support.channel_types@, target) {
            match window_of(old, target) {
                Some(i) => {
                    &&& new.windows.len() == old.windows.len()
                    &&& new == with_channel(old, i, new.windows[i].1)
                    &&& effects_applied(old.windows[i].1, spec_mode_effects(old.support, mode, params), new.windows[i].1)
                    &&& acts == seq![ActionView::NoteIn(old.windows[i].0, mode_note(sender, mode, params))]
                },
                None => new == old && acts == Seq::<ActionView>::empty(),
            }
        } else if same_identifier(&old.support, target, old.my_nick) {
            new == old && acts == seq![ActionView::NoteServer(user_mode_note(sender, mode, params))]
        } else {
            new == old && acts == Seq::<ActionView>::empty()
        },
    }
}

/// What a NOTICE asks of the caller: nothing for our own echoed notice or
/// one from an ignored sender (server notices carry no prefix and are never
/// ignored); a CTCP reply is noted in the current window; otherwise
/// `-sender- text` goes to its window (the sender's query for a private
/// notice), or to the server window before registration or for `*`.
pub open spec fn notice_outcome(v: ClientView, sender: Seq<char>, prefix: Option<Seq<char>>, target: Seq<char>,
    text: Seq<char>, echo_message: bool, connected: bool, now_ms: u128) -> Seq<ActionView> {
    if echo_message && same_identifier(&v.support, sender, v.my_nick) {
        Seq::empty()
    } else if prefix is Some && spec_is_ignored(&v.support, v.ignore_list, v.ignore_keys, sender, prefix) {
        Seq::empty()
    } else {
        match spec_ctcp_reply(text) {
            Some((cmd, reply)) => seq![ActionView::NoteCurrent(spec_ctcp_reply_note(sender, cmd, reply, now_ms as nat))],
            None => {
                let line = "-"@ + sender + "- "@ + text;
                match spec_notice_window(&v.support, v.my_nick, connected, sender, target) {
                    Some(w) => seq![ActionView::NoteIn(w, line)],
                    None => seq![ActionView::NoteServer(line)],
                }
            },
        }
    }
}

/// The first window, from `k` on, whose channel lists `nick`.
pub open spec fn first_member_window(ws: Seq<(Seq<char>, ChannelView)>, nick: Seq<char>, k: int) -> Option<int>
    decreases ws.len() - k,
{
    if k < 0 || k >= ws.len() {
        None
    } else if has_member(ws[k].1, nick) {
        Some(k)
    } else {
        first_member_window(ws, nick, k + 1)
    }
}

/// A channel after `nick`'s away message became `away` (see `Channel::set_user_away`).
pub open spec fn away_changed(c: ChannelView, nick: Seq<char>, away: Option<Seq<char>>) -> ChannelView {
    ChannelView {
        users: away_set(c.case_mapping, c.users, nick, away),
        names_snapshot: match c.names_snapshot {
            Some(s) => Some(away_set(c.case_mapping, s, nick, away)),
            None => None,
        },
        ..c
    }
}

/// Every window after `nick`'s away message became `away`.
pub open spec fn away_windows(ws: Seq<(Seq<char>, ChannelView)>, nick: Seq<char>, away: Option<Seq<char>>)
    -> Seq<(Seq<char>, ChannelView)> {
    ws.map_values(|w: (Seq<char>, ChannelView)| (w.0, away_changed(w.1, nick, away)))
}

/// The line for an away change.
pub open spec fn away_note(nick: Seq<char>, away: Option<Seq<char>>) -> Seq<char> {
    match away {
        Some(t) => nick + " is now away: "@ + t,
        None => nick + " is back"@,
    }
}

/// How an away change spreads: every window's channel records it, and it
/// is noted once, in the first window listing the member, unless join and
/// part lines are hidden.
pub open spec fn away_applied(old: ClientView, nick: Seq<char>, away: Option<Seq<char>>, new: ClientView,
    acts: Seq<ActionView>) -> bool {
    &&& new == (ClientView {
        windows: away_windows(old.windows, nick, away),
        ..old
    })
    &&& acts == if old.hide_join_part {
        Seq::<ActionView>::empty()
    } else {
        match first_member_window(old.windows, nick, 0) {
            Some(j) => seq![ActionView::NoteIn(old.windows[j].0, away_note(nick, away))],
            None => Seq::empty(),
        }
    }
}

/// How many invitations are kept; the oldest goes first.
pub const MAX_PENDING_INVITES: usize = 64;

/// The invitations after one more arrives.
pub open spec fn invites_pushed(q: Seq<(Seq<char>, Seq<char>)>, x: (Seq<char>, Seq<char>)) -> Seq<(Seq<char>, Seq<char>)> {
    (if q.len() >= MAX_PENDING_INVITES { q.drop_first() } else { q }).push(x)
}

/// The kept invitations never exceed the bound, and the newest is last.
pub proof fn lemma_invites_bounded(q: Seq<(Seq<char>, Seq<char>)>, x: (Seq<char>, Seq<char>))
    requires
        q.len() <= MAX_PENDING_INVITES,
    ensures
        invites_pushed(q, x).len() <= MAX_PENDING_INVITES,
        invites_pushed(q, x).last() == x,
{
}

/// How an INVITE changes the state: an invitation of someone else is noted
/// in the channel's window; ours is kept (see `invites_pushed`), announced
/// in the server window and notified.
pub open spec fn invite_applied(old: ClientView, sender: Seq<char>, target: Seq<char>, channel: Seq<char>,
    new: ClientView, acts: Seq<ActionView>) -> bool {
    if !same_identifier(&old.support, target, old.my_nick) {
        new == old && acts == seq![ActionView::NoteIn(channel, sender + " invited "@ + target + " to "@ + channel)]
    } else {
        &&& new == (ClientView { pending_invites: invites_pushed(old.pending_invites, (sender, channel)), ..old })
        &&& acts == seq![
            ActionView::NoteServer("*** "@ + sender + " has invited you to "@ + channel + " - type /join "@ + channel
                + " to accept"@),
            ActionView::Notify { title: "Channel Invite"@, body: sender + " invited you to "@ + channel, force: false },
        ]
    }
}

/// A channel after `nick`'s account (`account`) or real name (otherwise)
/// became `value` (see `Channel::set_user_account`, `set_user_realname`).
pub open spec fn profile_changed(c: ChannelView, nick: Seq<char>, account: bool, value: Option<Seq<char>>) -> ChannelView {
    if account {
        ChannelView {
            users: account_set(c.case_mapping, c.users, nick, value),
            names_snapshot: match c.names_snapshot {
                Some(s) => Some(account_set(c.case_mapping, s, nick, value)),
                None => None,
            },
            ..c
        }
    } else {
        ChannelView {
            users: realname_set(c.case_mapping, c.users, nick, value),
            names_snapshot: match c.names_snapshot {
                Some(s) => Some(realname_set(c.case_mapping, s, nick, value)),
                None => None,
            },
            ..c
        }
    }
}

/// A window after a profile change: only a channel listing the member changes.
pub open spec fn profile_window(w: (Seq<char>, ChannelView), nick: Seq<char>, account: bool, value: Option<Seq<char>>)
    -> (Seq<char>, ChannelView) {
    if has_member(w.1, nick) { (w.0, profile_changed(w.1, nick, account, value)) } else { w }
}

/// A note in the first window listing `nick`, unless join and part lines are hidden.
pub open spec fn first_member_note(v: ClientView, nick: Seq<char>, text: Seq<char>) -> Seq<ActionView> {
    if v.hide_join_part {
        Seq::empty()
    } else {
        match first_member_window(v.windows, nick, 0) {
            Some(j) => seq![ActionView::NoteIn(v.windows[j].0, text)],
            None => Seq::empty(),
        }
    }
}

/// How account, real-name and host changes spread: an account change is
/// recorded in every channel listing the member (`*` logs out) and noted
/// once; a real-name change is recorded and noted in every such channel; a
/// host change is only noted once.
pub open spec fn profile_applied(old: ClientView, ev: EventView, new: ClientView, acts: Seq<ActionView>) -> bool {
    match ev {
        IncomingEvent::Account { sender, account } => {
            let value = if account == "*"@ { None } else { Some(account) };
            let note = if account == "*"@ { sender + " has logged out"@ } else { sender + " has logged in as "@ + account };
            &&& new == (ClientView {
                windows: old.windows.map_values(|w: (Seq<char>, ChannelView)| profile_window(w, sender, true, value)),
                ..old
            })
            &&& acts == first_member_note(old, sender, note)
        },
        IncomingEvent::Setname { sender, realname } => {
            &&& new == (ClientView {
                windows: old.windows.map_values(
                    |w: (Seq<char>, ChannelView)| profile_window(w, sender, false, Some(realname)),
                ),
                ..old
            })
            &&& acts == presence_notes(old.windows, sender, sender + " changed their realname to "@ + realname)
        },
        IncomingEvent::Chghost { sender, user, host } => new == old
            && acts == first_member_note(old, sender, sender + " changed host to "@ + user + "@"@ + host),
        _ => true,
    }
}

/// How a server event changes the windows and what it asks of the caller:
/// - our JOIN marks the channel's window joined (opening it if needed),
///   focuses it and notes `Now talking in #chan`; another's JOIN adds the
///   member (with account and real name) and is announced unless join and
///   part lines are hidden;
/// - our PART closes the window (the first remaining window becomes current
///   if it was current); another's PART removes the member, announced
///   unless hidden;
/// - a KICK of us empties the member list and leaves us unjoined, noted in
///   the window; a KICK of another removes them and is always announced;
/// - a TOPIC change sets the topic and is noted;
/// - a PRIVMSG changes nothing and is routed (see `privmsg_outcome`);
/// - a QUIT removes the member from every window listing them, noted there
///   unless join and part lines are hidden;
/// - a NICK renames the member everywhere (see `nick_applied`);
/// - a MODE changes a channel or is noted (see `mode_applied`);
/// - a NOTICE changes nothing and is routed (see `notice_outcome`);
/// - an away change is recorded everywhere (see `away_applied`);
/// - an INVITE is noted, and ours kept (see `invite_applied`);
/// - account, real-name and host changes as `profile_applied` says;
/// - a STATUSMSG is noted in its channel's window (opened if needed);
/// - a MARKREAD moves the read marker of an open window;
/// - a reaction is noted in its window (the sender's query when sent to us);
/// - a standard reply is noted in the channel its context names, else in
///   the server window;
/// - a redaction removes the message from an open window, noted there.
pub open spec fn incoming_applied(old: ClientView, ev: EventView, new: ClientView, acts: Seq<ActionView>) -> bool {
    match ev {
        IncomingEvent::Join { sender, channel, account, realname } => if same_identifier(&old.support, sender, old.my_nick) {
            let note = ActionView::NoteIn(channel, "Now talking in "@ + channel);
            match window_of(old, channel) {
                Some(i) => new == with_channel(old, i, ChannelView { joined: true, ..old.windows[i].1 })
                    && acts == seq![ActionView::Focus(old.windows[i].0), note],
                None => new == (ClientView { windows: old.windows.push((channel, joined_window(old))), ..old })
                    && acts == seq![ActionView::Focus(channel), note],
            }
        } else {
            &&& acts == if old.hide_join_part {
                Seq::<ActionView>::empty()
            } else {
                seq![ActionView::NoteIn(channel, spec_join_note(sender, account, realname, channel))]
            }
            &&& match window_of(old, channel) {
                Some(i) => {
                    &&& new.windows.len() == old.windows.len()
                    &&& new == with_channel(old, i, new.windows[i].1)
                    &&& member_joined(old.windows[i].1, sender, account, realname, new.windows[i].1)
                },
                None => new == old,
            }
        },
        IncomingEvent::Part { sender, channel, reason } => if same_identifier(&old.support, sender, old.my_nick) {
            let ws = match window_of(old, channel) {
                Some(i) => old.windows.remove(i),
                None => old.windows,
            };
            &&& acts == Seq::<ActionView>::empty()
            &&& new == ClientView {
                windows: ws,
                current: match old.current {
                    Some(c) => if same_identifier(&old.support, c, channel) { first_window(ws) } else { old.current },
                    None => None,
                },
                ..old
            }
        } else {
            &&& acts == if old.hide_join_part {
                Seq::<ActionView>::empty()
            } else {
                seq![ActionView::NoteIn(channel, spec_part_note(sender, channel, reason))]
            }
            &&& new == match window_of(old, channel) {
                Some(i) => with_channel(old, i, member_left(old.windows[i].1, sender)),
                None => old,
            }
        },
        IncomingEvent::Kick { sender, channel, kicked, reason } => if same_identifier(&old.support, kicked, old.my_nick) {
            match window_of(old, channel) {
                Some(i) => new == with_channel(old, i, ChannelView {
                    joined: false,
                    users: Seq::empty(),
                    names_snapshot: None,
                    ..old.windows[i].1
                }) && acts == seq![ActionView::NoteIn(old.windows[i].0, spec_kick_note(kicked, true, channel, sender, reason))],
                None => new == old && acts == Seq::<ActionView>::empty(),
            }
        } else {
            &&& acts == seq![ActionView::NoteIn(channel, spec_kick_note(kicked, false, channel, sender, reason))]
            &&& new == match window_of(old, channel) {
                Some(i) => with_channel(old, i, member_left(old.windows[i].1, kicked)),
                None => old,
            }
        },
        IncomingEvent::Topic { sender, channel, topic } => match window_of(old, channel) {
            Some(i) => new == with_channel(old, i, ChannelView { topic: topic, ..old.windows[i].1 })
                && acts == seq![ActionView::NoteIn(old.windows[i].0, topic_change_note(sender, topic))],
            None => new == old && acts == Seq::<ActionView>::empty(),
        },
        IncomingEvent::Privmsg { sender, prefix, target, text } => new == old
            && acts == privmsg_outcome(old, sender, prefix, target, text),
        IncomingEvent::Quit { sender, reason } => {
            &&& new == (ClientView {
                windows: old.windows.map_values(|w: (Seq<char>, ChannelView)| quit_window(w, sender)),
                ..old
            })
            &&& acts == if old.hide_join_part {
                Seq::<ActionView>::empty()
            } else {
                presence_notes(old.windows, sender, spec_quit_note(sender, reason))
            }
        },
        IncomingEvent::Nick { sender, nick } => nick_applied(old, sender, nick, new, acts),
        IncomingEvent::Mode { sender, target, modes, params } => mode_applied(old, sender, target, modes, params, new, acts),
        IncomingEvent::Notice { sender, prefix, target, text, echo_message, connected, now_ms } => new == old
            && acts == notice_outcome(old, sender, prefix, target, text, echo_message, connected, now_ms),
        IncomingEvent::Away { sender, message } => away_applied(old, sender, message, new, acts),
        IncomingEvent::Invite { sender, target, channel } => invite_applied(old, sender, target, channel, new, acts),
        IncomingEvent::Account { .. } => profile_applied(old, ev, new, acts),
        IncomingEvent::Setname { .. } => profile_applied(old, ev, new, acts),
        IncomingEvent::Chghost { .. } => profile_applied(old, ev, new, acts),
        IncomingEvent::StatusMessage { sender, status, target, text } => new == old && acts == seq![
            ActionView::NoteIn(spec_strip_status_prefix(&old.support, target), spec_status_message_text(sender, status, text)),
        ],
        IncomingEvent::Markread { target, timestamp } => {
            &&& acts == Seq::<ActionView>::empty()
            &&& new == match window_of(old, target) {
                Some(i) => with_channel(old, i, ChannelView { read_marker: timestamp, ..old.windows[i].1 }),
                None => old,
            }
        },
        IncomingEvent::Reaction { sender, target, reaction, reply_to } => new == old && acts == seq![
            ActionView::NoteIn(
                spec_reaction_window(&old.support, old.my_nick, sender, target),
                spec_reaction_text(sender, reaction, reply_to),
            ),
        ],
        IncomingEvent::StandardReply { kind, command, code, context, description } => {
            let text = spec_standard_reply_text(kind, command, code, context, description);
            &&& new == old
            &&& acts == match spec_standard_reply_window(context, old.support.channel_types@) {
                Some(c) => seq![ActionView::NoteIn(c, text)],
                None => seq![ActionView::NoteServer(text)],
            }
        },
        IncomingEvent::Redact { target, msgid, reason } => match window_of(old, target) {
            Some(i) => {
                let c = old.windows[i].1;
                let kept = without_msgid(c.messages, msgid);
                &&& new == with_channel(old, i, ChannelView { messages: kept, ..c })
                &&& acts == seq![ActionView::NoteIn(
                    old.windows[i].0,
                    spec_redaction_note(kept.len() != c.messages.len(), msgid, reason),
                )]
            },
            None => new == old && acts == Seq::<ActionView>::empty(),
        },
    }
}

fn one_action(a: ClientAction<String, Vec<String>>) -> (r: Vec<ClientAction<String, Vec<String>>>)
    ensures
        action_views(r@) == seq![a@],
{
    let mut v: Vec<ClientAction<String, Vec<String>>> = Vec::new();
    v.push(a);
    assert(action_views(v@) =~= seq![v@[0]@]);
    v
}

fn opt_str(o: &Option<String>) -> (r: Option<&str>)
    ensures
        match r { Some(x) => Some(x@), None => None::<Seq<char>> } == opt_view(*o),
{
    match o {
        Some(x) => Some(x.as_str()),
        None => None,
    }
}

impl ClientState {
    fn self_join(&mut self, channel: &String) -> (acts: Vec<ClientAction<String, Vec<String>>>)
        ensures
            ({
                let old_v = old(self)@;
                let note = ActionView::NoteIn(channel@, "Now talking in "@ + channel@);
                match window_of(old_v, channel@) {
                    Some(i) => final(self)@ == with_channel(old_v, i, ChannelView { joined: true, ..old_v.windows[i].1 })
                        && action_views(acts@) == seq![ActionView::Focus(old_v.windows[i].0), note],
                    None => final(self)@ == (ClientView { windows: old_v.windows.push((channel@, joined_window(old_v))), ..old_v })
                        && action_views(acts@) == seq![ActionView::Focus(channel@), note],
                }
            }),
    {
        let ghost pre = *self;
        let mut text = to_string("Now talking in ");
        crate::text::push_str(&mut text, channel.as_str());
        let found = self.find_window(channel.as_str());
        proof {
            lemma_window_from(self@, channel@, 0);
        }
        let focus = match found {
            Some(i) => {
                let (name, mut ch) = self.take_window(i);
                ch.set_joined(true);
                let f = name.clone();
                self.put_back(i, (name, ch));
                proof {
                    lemma_view_after_put_back(pre, *self, i as int, self.windows@[i as int]);
                }
                f
            },
            None => {
                let mut ch = Channel::new();
                ch.set_case_mapping(self.support.case_mapping);
                ch.set_joined(true);
                let ghost ws = self.windows@;
                self.windows.push((channel.clone(), ch));
                assert(self@.windows =~= pre@.windows.push((channel@, joined_window(pre@))));
                channel.clone()
            },
        };
        let mut acts: Vec<ClientAction<String, Vec<String>>> = Vec::new();
        acts.push(ClientAction::Focus(focus));
        acts.push(ClientAction::NoteIn(channel.clone(), text));
        assert(action_views(acts@) =~= seq![acts@[0]@, acts@[1]@]);
        acts
    }

    /// Update the member list of the channel's window, if open.
    fn member_update(&mut self, channel: &str, nick: &str, joined: bool, account: &Option<String>,
        realname: &Option<String>)
        ensures
            ({
                let old_v = old(self)@;
                match window_of(old_v, channel@) {
                    Some(i) => if joined {
                        &&& final(self)@.windows.len() == old_v.windows.len()
                        &&& final(self)@ == with_channel(old_v, i, final(self)@.windows[i].1)
                        &&& member_joined(old_v.windows[i].1, nick@, opt_view(*account), opt_view(*realname),
                            final(self)@.windows[i].1)
                    } else {
                        final(self)@ == with_channel(old_v, i, member_left(old_v.windows[i].1, nick@))
                    },
                    None => final(self)@ == old_v,
                }
            }),
    {
        let ghost pre = *self;
        let found = self.find_window(channel);
        proof {
            lemma_window_from(self@, channel@, 0);
        }
        if let Some(i) = found {
            let (name, mut ch) = self.take_window(i);
            if joined {
                ch.add_user(nick, UserMode::Normal);
                let ghost c1 = ch@;
                ch.set_user_account(nick, account.clone());
                ch.set_user_realname(nick, realname.clone());
                proof {
                    assert(member_joined(pre@.windows[i as int].1, nick@, opt_view(*account), opt_view(*realname), ch@)) by {
                        assert(c1 == add_user_effect(pre@.windows[i as int].1, nick@, UserMode::Normal, join_prefixes(), c1.users));
                    }
                }
            } else {
                ch.remove_user(nick);
            }
            self.put_back(i, (name, ch));
            proof {
                lemma_view_after_put_back(pre, *self, i as int, self.windows@[i as int]);
            }
        }
    }

    fn self_part(&mut self, channel: &str)
        ensures
            ({
                let old_v = old(self)@;
                let ws = match window_of(old_v, channel@) {
                    Some(i) => old_v.windows.remove(i),
                    None => old_v.windows,
                };
                final(self)@ == ClientView {
                    windows: ws,
                    current: match old_v.current {
                        Some(c) => if same_identifier(&old_v.support, c, channel@) { first_window(ws) } else { old_v.current },
                        None => None,
                    },
                    ..old_v
                }
            }),
    {
        let ghost pre = *self;
        let found = self.find_window(channel);
        proof {
            lemma_window_from(self@, channel@, 0);
        }
        if let Some(i) = found {
            let _ = self.take_window(i);
            assert(self@.windows =~= pre@.windows.remove(i as int));
        }
        let reset = match &self.current {
            Some(c) => self.support.identifiers_equal(c.as_str(), channel),
            None => false,
        };
        if reset {
            self.current = if self.windows.len() > 0 { Some(self.windows[0].0.clone()) } else { None };
        }
    }

    fn set_window_topic(&mut self, channel: &str, sender: &Option<String>, topic: &Option<String>)
        -> (acts: Vec<ClientAction<String, Vec<String>>>)
        ensures
            ({
                let old_v = old(self)@;
                match window_of(old_v, channel@) {
                    Some(i) => final(self)@ == with_channel(old_v, i, ChannelView { topic: opt_view(*topic), ..old_v.windows[i].1 })
                        && action_views(acts@) == seq![ActionView::NoteIn(old_v.windows[i].0,
                            topic_change_note(opt_view(*sender), opt_view(*topic)))],
                    None => final(self)@ == old_v && action_views(acts@) == Seq::<ActionView>::empty(),
                }
            }),
    {
        let ghost pre = *self;
        let found = self.find_window(channel);
        proof {
            lemma_window_from(self@, channel@, 0);
        }
        match found {
            None => no_actions(),
            Some(i) => {
                let (name, mut ch) = self.take_window(i);
                ch.set_topic(topic.clone());
                let mut text = match sender {
                    Some(s) => {
                        let mut t = to_string(s.as_str());
                        crate::text::push_str(&mut t, " changed the topic to: ");
                        t
                    },
                    None => to_string("Topic: "),
                };
                match topic {
                    Some(t) => crate::text::push_str(&mut text, t.as_str()),
                    None => {},
                }
                proof {
                    assert(text@ =~= topic_change_note(opt_view(*sender), opt_view(*topic)));
                }
                let acts = note_in(&name, text);
                self.put_back(i, (name, ch));
                proof {
                    lemma_view_after_put_back(pre, *self, i as int, self.windows@[i as int]);
                }
                acts
            },
        }
    }

    fn self_kicked(&mut self, channel: &str, note: String) -> (acts: Vec<ClientAction<String, Vec<String>>>)
        ensures
            ({
                let old_v = old(self)@;
                match window_of(old_v, channel@) {
                    Some(i) => final(self)@ == with_channel(old_v, i, ChannelView {
                        joined: false,
                        users: Seq::empty(),
                        names_snapshot: None,
                        ..old_v.windows[i].1
                    }) && action_views(acts@) == seq![ActionView::NoteIn(old_v.windows[i].0, note@)],
                    None => final(self)@ == old_v && action_views(acts@) == Seq::<ActionView>::empty(),
                }
            }),
    {
        let ghost pre = *self;
        let found = self.find_window(channel);
        proof {
            lemma_window_from(self@, channel@, 0);
        }
        match found {
            None => no_actions(),
            Some(i) => {
                let (name, mut ch) = self.take_window(i);
                ch.mark_removed();
                let acts = note_in(&name, note);
                self.put_back(i, (name, ch));
                proof {
                    lemma_view_after_put_back(pre, *self, i as int, self.windows@[i as int]);
                }
                acts
            },
        }
    }

    /// The actions for a PRIVMSG (see `privmsg_outcome`).
    fn privmsg_actions(&self, sender: &String, prefix: &Option<String>, target: &String, text: &String)
        -> (acts: Vec<ClientAction<String, Vec<String>>>)
        ensures
            action_views(acts@) == privmsg_outcome(self@, sender@, opt_view(*prefix), target@, text@),
    {
        if is_ignored(&self.support, self.ignore_list.as_slice(), self.ignore_keys.as_slice(), sender.as_str(),
            opt_str(prefix)) {
            return no_actions();
        }
        if crate::ctcp::handle_ctcp_request(sender.as_str(), text.as_str(), "", false, "", "").is_some() {
            return one_action(ClientAction::CtcpRequest(sender.clone(), text.clone()));
        }
        let (window, private) = privmsg_window(&self.support, self.my_nick.as_str(), sender.as_str(), target.as_str());
        let key = self.support.canonicalize(self.my_nick.as_str());
        let highlight = check_nick_mention(&self.support, key.as_str(), self.highlight_keys.as_slice(), text.as_str());
        let shown = action_text(text.as_str());
        let action = shown.is_some();
        let shown_text = match shown {
            Some(b) => b,
            None => text.clone(),
        };
        let from_self = self.support.identifiers_equal(sender.as_str(), self.my_nick.as_str());
        let mut acts: Vec<ClientAction<String, Vec<String>>> = Vec::new();
        match privmsg_notification(private, highlight, from_self, sender.as_str(), window.as_str(), text.as_str()) {
            Some((title, body, force)) => acts.push(ClientAction::Notify { title, body, force }),
            None => {},
        }
        acts.push(ClientAction::Deliver { window, sender: sender.clone(), text: shown_text, action, highlight });
        let ghost expected = privmsg_outcome(self@, sender@, opt_view(*prefix), target@, text@);
        assert(action_views(acts@) =~= expected);
        acts
    }

    /// Remove `nick` from every window that lists them, with a note for each.
    fn quit_everywhere(&mut self, nick: &str, note: String) -> (acts: Vec<ClientAction<String, Vec<String>>>)
        ensures
            final(self)@ == (ClientView {
                windows: old(self)@.windows.map_values(|w: (Seq<char>, ChannelView)| quit_window(w, nick@)),
                ..old(self)@
            }),
            action_views(acts@) == presence_notes(old(self)@.windows, nick@, note@),
    {
        let ghost pre = self@;
        let mut acts: Vec<ClientAction<String, Vec<String>>> = Vec::new();
        let n = self.windows.len();
        let mut i: usize = 0;
        while i < n
            invariant
                n == pre.windows.len(),
                i <= n,
                self@.windows.len() == n,
                forall|j: int| 0 <= j < i ==> #[trigger] self@.windows[j] == quit_window(pre.windows[j], nick@),
                forall|j: int| i <= j < n ==> #[trigger] self@.windows[j] == pre.windows[j],
                self@ == (ClientView { windows: self@.windows, ..pre }),
                action_views(acts@) == presence_notes(pre.windows.take(i as int), nick@, note@),
            decreases n - i,
        {
            let ghost before = *self;
            let ghost acts_before = acts@;
            assert(self@.windows[i as int].1 == self.windows@[i as int].1@);
            assert(pre.windows.take(i + 1).drop_last() =~= pre.windows.take(i as int));
            if self.windows[i].1.has_user(nick) {
                let (name, mut ch) = self.take_window(i);
                ch.remove_user(nick);
                acts.push(ClientAction::NoteIn(name.clone(), note.clone()));
                self.put_back(i, (name, ch));
                proof {
                    lemma_view_after_put_back(before, *self, i as int, self.windows@[i as int]);
                    assert(action_views(acts@) =~= action_views(acts_before).push(acts@[acts@.len() - 1]@));
                }
            }
            i += 1;
        }
        assert(pre.windows.take(n as int) =~= pre.windows);
        assert(self@.windows =~= pre.windows.map_values(|w: (Seq<char>, ChannelView)| quit_window(w, nick@)));
        acts
    }

    /// The query window for `nick` (see `query_from`).
    fn find_query(&self, nick: &str) -> (r: Option<usize>)
        ensures
            match r {
                Some(i) => query_from(self@, nick@, 0) == Some(i as int),
                None => query_from(self@, nick@, 0) is None,
            },
    {
        let mut k: usize = 0;
        while k < self.windows.len()
            invariant
                k <= self.windows@.len(),
                query_from(self@, nick@, 0) == query_from(self@, nick@, k as int),
            decreases self.windows@.len() - k,
        {
            assert(self@.windows[k as int].0 == self.windows@[k as int].0@);
            let name = self.windows[k].0.as_str();
            if !self.support.is_channel(name) && self.support.identifiers_equal(name, nick) {
                return Some(k);
            }
            k += 1;
        }
        None
    }

    /// Rename `o` to `n` in every window that lists them, with a note for each.
    fn nick_everywhere(&mut self, o: &str, n: &str, note: String) -> (acts: Vec<ClientAction<String, Vec<String>>>)
        ensures
            final(self)@.windows.len() == old(self)@.windows.len(),
            forall|j: int| 0 <= j < old(self)@.windows.len() ==> (if has_member(old(self)@.windows[j].1, o@) {
                member_renamed(old(self)@.windows[j].1, o@, n@, #[trigger] final(self)@.windows[j].1)
            } else {
                final(self)@.windows[j].1 == old(self)@.windows[j].1
            }),
            forall|j: int| 0 <= j < old(self)@.windows.len() ==> #[trigger] final(self)@.windows[j].0 == old(self)@.windows[j].0,
            final(self)@ == (ClientView { windows: final(self)@.windows, ..old(self)@ }),
            action_views(acts@) == presence_notes(old(self)@.windows, o@, note@),
    {
        let ghost pre = self@;
        let mut acts: Vec<ClientAction<String, Vec<String>>> = Vec::new();
        let len = self.windows.len();
        let mut i: usize = 0;
        while i < len
            invariant
                len == pre.windows.len(),
                i <= len,
                self@.windows.len() == len,
                forall|j: int| 0 <= j < i ==> (if has_member(pre.windows[j].1, o@) {
                    member_renamed(pre.windows[j].1, o@, n@, #[trigger] self@.windows[j].1)
                } else {
                    self@.windows[j].1 == pre.windows[j].1
                }),
                forall|j: int| 0 <= j < i ==> #[trigger] self@.windows[j].0 == pre.windows[j].0,
                forall|j: int| i <= j < len ==> #[trigger] self@.windows[j] == pre.windows[j],
                self@ == (ClientView { windows: self@.windows, ..pre }),
                action_views(acts@) == presence_notes(pre.windows.take(i as int), o@, note@),
            decreases len - i,
        {
            let ghost before = *self;
            let ghost acts_before = acts@;
            assert(self@.windows[i as int].1 == self.windows@[i as int].1@);
            assert(pre.windows.take(i + 1).drop_last() =~= pre.windows.take(i as int));
            if self.windows[i].1.has_user(o) {
                let (name, mut ch) = self.take_window(i);
                ch.rename_user(o, n);
                acts.push(ClientAction::NoteIn(name.clone(), note.clone()));
                self.put_back(i, (name, ch));
                proof {
                    lemma_view_after_put_back(before, *self, i as int, self.windows@[i as int]);
                    assert(action_views(acts@) =~= action_views(acts_before).push(acts@[acts@.len() - 1]@));
                }
            }
            i += 1;
        }
        assert(pre.windows.take(len as int) =~= pre.windows);
        acts
    }

    /// Carry out a NICK (see `incoming_applied`).
    fn nick_changed(&mut self, o: &String, n: &String) -> (acts: Vec<ClientAction<String, Vec<String>>>)
        ensures
            nick_applied(old(self)@, o@, n@, final(self)@, action_views(acts@)),
    {
        let ghost pre = self@;
        let note = nick_note(o.as_str(), n.as_str());
        let q = match self.find_window(n.as_str()) {
            Some(_) => None,
            None => self.find_query(o.as_str()),
        };
        proof {
            lemma_query_from(self@, o@, 0);
        }
        if self.support.identifiers_equal(o.as_str(), self.my_nick.as_str()) {
            self.my_nick = n.clone();
        }
        let ghost mid = self@;
        assert(mid.windows == pre.windows);
        let mut acts = self.nick_everywhere(o.as_str(), n.as_str(), note.clone());
        let ghost after = *self;
        let ghost acts_mid = acts@;
        if let Some(k) = q {
            assert(after@.windows[k as int].0 == after.windows@[k as int].0@);
            assert(after@.windows[k as int].1 == after.windows@[k as int].1@);
            let (name, ch) = self.take_window(k);
            let was_current = match &self.current {
                Some(c) => crate::text::chars_eq(&chars_of(c.as_str()), &chars_of(name.as_str())),
                None => false,
            };
            assert(name@ == pre.windows[k as int].0);
            self.put_back(k, (n.clone(), ch));
            if was_current {
                self.current = Some(n.clone());
            }
            acts.push(ClientAction::NoteIn(n.clone(), note));
            proof {
                lemma_replace_window(after.windows@, k as int, self.windows@[k as int]);
                assert(self@.windows == after@.windows.update(k as int, (n@, after@.windows[k as int].1)));
                assert(query_rekeyed(pre, o@, n@) == Some(k as int));
                assert(self@.current == if pre.current == Some(pre.windows[k as int].0) { Some(n@) } else { pre.current });
                assert(action_views(acts@) =~= action_views(acts_mid).push(acts@[acts@.len() - 1]@));
            }
        } else {
            assert(query_rekeyed(pre, o@, n@) is None);
        }
        assert(self@.windows.len() == pre.windows.len());
        assert(self@.my_nick == if same_identifier(&pre.support, o@, pre.my_nick) { n@ } else { pre.my_nick });
        acts
    }

    /// Carry out a MODE (see `mode_applied`).
    fn mode_changed(&mut self, sender: &String, target: &String, modes: &Option<String>, params: &Vec<String>)
        -> (acts: Vec<ClientAction<String, Vec<String>>>)
        ensures
            mode_applied(old(self)@, sender@, target@, opt_view(*modes), views(params@), final(self)@, action_views(acts@)),
    {
        let ghost pre = *self;
        let mode = match modes {
            Some(m) => m.as_str(),
            None => {
                return no_actions();
            },
        };
        if self.support.is_channel(target.as_str()) {
            let found = self.find_window(target.as_str());
            proof {
                lemma_window_from(self@, target@, 0);
            }
            match found {
                None => no_actions(),
                Some(i) => {
                    assert(self@.windows[i as int].1 == self.windows@[i as int].1@);
                    let (name, mut ch) = self.take_window(i);
                    ch.apply_mode_effects(&self.support, mode, params.as_slice());
                    let acts = note_in(&name, mode_note_text(sender.as_str(), mode, params.as_slice()));
                    self.put_back(i, (name, ch));
                    proof {
                        lemma_view_after_put_back(pre, *self, i as int, self.windows@[i as int]);
                    }
                    acts
                },
            }
        } else if self.support.identifiers_equal(target.as_str(), self.my_nick.as_str()) {
            let mut text = to_string(sender.as_str());
            push_str(&mut text, " set user mode ");
            push_str(&mut text, mode);
            if params.len() > 0 {
                push_str(&mut text, " ");
                push_joined(&mut text, params.as_slice());
            }
            proof {
                reveal_strlit(" ");
                reveal_strlit(" set user mode ");
            }
            assert(text@ =~= user_mode_note(sender@, mode@, views(params@)));
            one_action(ClientAction::NoteServer(text))
        } else {
            no_actions()
        }
    }

    /// The actions for a NOTICE (see `notice_outcome`).
    fn notice_actions(&self, sender: &String, prefix: &Option<String>, target: &String, text: &String,
        echo_message: bool, connected: bool, now_ms: u128) -> (acts: Vec<ClientAction<String, Vec<String>>>)
        ensures
            action_views(acts@) == notice_outcome(self@, sender@, opt_view(*prefix), target@, text@, echo_message,
                connected, now_ms),
    {
        if echo_message && self.support.identifiers_equal(sender.as_str(), self.my_nick.as_str()) {
            return no_actions();
        }
        if prefix.is_some() && is_ignored(&self.support, self.ignore_list.as_slice(), self.ignore_keys.as_slice(),
            sender.as_str(), opt_str(prefix)) {
            return no_actions();
        }
        match ctcp_reply_note(sender.as_str(), text.as_str(), now_ms) {
            Some(t) => one_action(ClientAction::NoteCurrent(t)),
            None => {
                let mut line = to_string("-");
                push_str(&mut line, sender.as_str());
                push_str(&mut line, "- ");
                push_str(&mut line, text.as_str());
                proof {
                    reveal_strlit("-");
                    reveal_strlit("- ");
                }
                assert(line@ =~= "-"@ + sender@ + "- "@ + text@);
                match notice_window(&self.support, self.my_nick.as_str(), connected, sender.as_str(), target.as_str()) {
                    Some(w) => one_action(ClientAction::NoteIn(w, line)),
                    None => one_action(ClientAction::NoteServer(line)),
                }
            },
        }
    }

    /// Record an away change in every window (see `away_applied`).
    fn away_changed_everywhere(&mut self, nick: &String, message: &Option<String>)
        -> (acts: Vec<ClientAction<String, Vec<String>>>)
        ensures
            away_applied(old(self)@, nick@, opt_view(*message), final(self)@, action_views(acts@)),
    {
        let ghost pre = self@;
        let ghost away = opt_view(*message);
        let n = self.windows.len();
        let mut first: Option<usize> = None;
        let mut i: usize = 0;
        while i < n
            invariant
                n == pre.windows.len(),
                i <= n,
                self@.windows.len() == n,
                forall|j: int| 0 <= j < i ==> #[trigger] self@.windows[j]
                    == (pre.windows[j].0, away_changed(pre.windows[j].1, nick@, away)),
                forall|j: int| i <= j < n ==> #[trigger] self@.windows[j] == pre.windows[j],
                self@ == (ClientView { windows: self@.windows, ..pre }),
                away == opt_view(*message),
                first_member_window(pre.windows, nick@, 0) == match first {
                    Some(j) => Some(j as int),
                    None => first_member_window(pre.windows, nick@, i as int),
                },
            decreases n - i,
        {
            let ghost before = *self;
            assert(self@.windows[i as int].1 == self.windows@[i as int].1@);
            if first.is_none() && self.windows[i].1.has_user(nick.as_str()) {
                first = Some(i);
            }
            let (name, mut ch) = self.take_window(i);
            let copy = match message {
                Some(m) => Some(m.clone()),
                None => None,
            };
            ch.set_user_away(nick.as_str(), copy);
            self.put_back(i, (name, ch));
            proof {
                lemma_view_after_put_back(before, *self, i as int, self.windows@[i as int]);
            }
            i += 1;
        }
        assert(self@.windows =~= away_windows(pre.windows, nick@, away));
        if self.hide_join_part {
            return no_actions();
        }
        proof {
            lemma_first_member_window(pre.windows, nick@, 0);
        }
        match first {
            Some(j) => {
                let mut text = to_string(nick.as_str());
                match message {
                    Some(t) => {
                        push_str(&mut text, " is now away: ");
                        push_str(&mut text, t.as_str());
                    },
                    None => push_str(&mut text, " is back"),
                }
                proof {
                    reveal_strlit(" is now away: ");
                    reveal_strlit(" is back");
                }
                assert(text@ =~= away_note(nick@, away));
                assert(self@.windows[j as int].0 == self.windows@[j as int].0@);
                let w = self.windows[j].0.clone();
                one_action(ClientAction::NoteIn(w, text))
            },
            None => no_actions(),
        }
    }

    /// Carry out an INVITE (see `invite_applied`).
    fn invited(&mut self, sender: &String, target: &String, channel: &String)
        -> (acts: Vec<ClientAction<String, Vec<String>>>)
        ensures
            invite_applied(old(self)@, sender@, target@, channel@, final(self)@, action_views(acts@)),
    {
        if !self.support.identifiers_equal(target.as_str(), self.my_nick.as_str()) {
            let mut text = to_string(sender.as_str());
            push_str(&mut text, " invited ");
            push_str(&mut text, target.as_str());
            push_str(&mut text, " to ");
            push_str(&mut text, channel.as_str());
            proof {
                reveal_strlit(" invited ");
                reveal_strlit(" to ");
            }
            assert(text@ =~= sender@ + " invited "@ + target@ + " to "@ + channel@);
            return one_action(ClientAction::NoteIn(channel.clone(), text));
        }
        let ghost q = self@.pending_invites;
        if self.pending_invites.len() >= MAX_PENDING_INVITES {
            self.pending_invites.remove(0);
        }
        self.pending_invites.push((sender.clone(), channel.clone()));
        assert(self@.pending_invites =~= invites_pushed(q, (sender@, channel@)));
        let mut line = to_string("*** ");
        push_str(&mut line, sender.as_str());
        push_str(&mut line, " has invited you to ");
        push_str(&mut line, channel.as_str());
        push_str(&mut line, " - type /join ");
        push_str(&mut line, channel.as_str());
        push_str(&mut line, " to accept");
        let mut body = to_string(sender.as_str());
        push_str(&mut body, " invited you to ");
        push_str(&mut body, channel.as_str());
        proof {
            reveal_strlit("*** ");
            reveal_strlit(" has invited you to ");
            reveal_strlit(" - type /join ");
            reveal_strlit(" to accept");
            reveal_strlit(" invited you to ");
        }
        let mut acts: Vec<ClientAction<String, Vec<String>>> = Vec::new();
        acts.push(ClientAction::NoteServer(line));
        acts.push(ClientAction::Notify { title: to_string("Channel Invite"), body, force: false });
        proof {
            reveal_strlit("Channel Invite");
        }
        assert(action_views(acts@) =~= seq![acts@[0]@, acts@[1]@]);
        acts
    }

    /// The first window listing `nick` (see `first_member_window`).
    fn first_member(&self, nick: &str) -> (r: Option<usize>)
        ensures
            match r {
                Some(i) => first_member_window(self@.windows, nick@, 0) == Some(i as int),
                None => first_member_window(self@.windows, nick@, 0) is None,
            },
    {
        let mut k: usize = 0;
        while k < self.windows.len()
            invariant
                k <= self.windows@.len(),
                first_member_window(self@.windows, nick@, 0) == first_member_window(self@.windows, nick@, k as int),
            decreases self.windows@.len() - k,
        {
            assert(self@.windows[k as int].1 == self.windows@[k as int].1@);
            if self.windows[k].1.has_user(nick) {
                return Some(k);
            }
            k += 1;
        }
        None
    }

    /// A note in the first window listing `nick` (see `first_member_note`).
    fn note_first_member(&self, nick: &str, text: String) -> (acts: Vec<ClientAction<String, Vec<String>>>)
        ensures
            action_views(acts@) == first_member_note(self@, nick@, text@),
    {
        if self.hide_join_part {
            return no_actions();
        }
        let found = self.first_member(nick);
        proof {
            lemma_first_member_window(self@.windows, nick@, 0);
        }
        match found {
            Some(j) => {
                assert(self@.windows[j as int].0 == self.windows@[j as int].0@);
                note_in(&self.windows[j].0, text)
            },
            None => no_actions(),
        }
    }

    /// Record a profile change in every channel listing `nick`, with a note
    /// for each (see `profile_window`).
    fn profile_everywhere(&mut self, nick: &str, account: bool, value: &Option<String>, note: &String)
        -> (acts: Vec<ClientAction<String, Vec<String>>>)
        ensures
            final(self)@ == (ClientView {
                windows: old(self)@.windows.map_values(
                    |w: (Seq<char>, ChannelView)| profile_window(w, nick@, account, opt_view(*value)),
                ),
                ..old(self)@
            }),
            action_views(acts@) == presence_notes(old(self)@.windows, nick@, note@),
    {
        let ghost pre = self@;
        let ghost gv = opt_view(*value);
        let mut acts: Vec<ClientAction<String, Vec<String>>> = Vec::new();
        let n = self.windows.len();
        let mut i: usize = 0;
        while i < n
            invariant
                n == pre.windows.len(),
                i <= n,
                self@.windows.len() == n,
                gv == opt_view(*value),
                forall|j: int| 0 <= j < i ==> #[trigger] self@.windows[j] == profile_window(pre.windows[j], nick@, account, gv),
                forall|j: int| i <= j < n ==> #[trigger] self@.windows[j] == pre.windows[j],
                self@ == (ClientView { windows: self@.windows, ..pre }),
                action_views(acts@) == presence_notes(pre.windows.take(i as int), nick@, note@),
            decreases n - i,
        {
            let ghost before = *self;
            let ghost acts_before = acts@;
            assert(self@.windows[i as int].1 == self.windows@[i as int].1@);
            assert(pre.windows.take(i + 1).drop_last() =~= pre.windows.take(i as int));
            if self.windows[i].1.has_user(nick) {
                let (name, mut ch) = self.take_window(i);
                let copy = match value {
                    Some(v) => Some(v.clone()),
                    None => None,
                };
                if account {
                    ch.set_user_account(nick, copy);
                } else {
                    ch.set_user_realname(nick, copy);
                }
                acts.push(ClientAction::NoteIn(name.clone(), note.clone()));
                self.put_back(i, (name, ch));
                proof {
                    lemma_view_after_put_back(before, *self, i as int, self.windows@[i as int]);
                    assert(action_views(acts@) =~= action_views(acts_before).push(acts@[acts@.len() - 1]@));
                }
            }
            i += 1;
        }
        assert(pre.windows.take(n as int) =~= pre.windows);
        assert(self@.windows =~= pre.windows.map_values(
            |w: (Seq<char>, ChannelView)| profile_window(w, nick@, account, gv),
        ));
        acts
    }

    /// Carry out an account, real-name or host change (see `profile_applied`).
    fn profile_event(&mut self, ev: &IncomingEvent<String, Vec<String>>) -> (acts: Vec<ClientAction<String, Vec<String>>>)
        requires
            old(self)@ == old(self)@,
        ensures
            profile_applied(old(self)@, ev@, final(self)@, action_views(acts@)),
    {
        match ev {
            IncomingEvent::Account { sender, account } => {
                let av = chars_of(account.as_str());
                let out = av.len() == 1 && av[0] == '*';
                proof {
                    reveal_strlit("*");
                    if account@ == "*"@ {
                        assert(av@.len() == 1 && av@[0] == '*');
                    }
                    if av@.len() == 1 && av@[0] == '*' {
                        assert(account@ =~= "*"@);
                    }
                }
                let mut note = to_string(sender.as_str());
                if out {
                    push_str(&mut note, " has logged out");
                } else {
                    push_str(&mut note, " has logged in as ");
                    push_str(&mut note, account.as_str());
                }
                proof {
                    reveal_strlit(" has logged out");
                    reveal_strlit(" has logged in as ");
                }
                let value = if out { None } else { Some(account.clone()) };
                let pre_acts = self.note_first_member(sender.as_str(), note.clone());
                let _ = self.profile_everywhere(sender.as_str(), true, &value, &note);
                pre_acts
            },
            IncomingEvent::Setname { sender, realname } => {
                let mut note = to_string(sender.as_str());
                push_str(&mut note, " changed their realname to ");
                push_str(&mut note, realname.as_str());
                proof {
                    reveal_strlit(" changed their realname to ");
                }
                self.profile_everywhere(sender.as_str(), false, &Some(realname.clone()), &note)
            },
            IncomingEvent::Chghost { sender, user, host } => {
                let mut note = to_string(sender.as_str());
                push_str(&mut note, " changed host to ");
                push_str(&mut note, user.as_str());
                push_str(&mut note, "@");
                push_str(&mut note, host.as_str());
                proof {
                    reveal_strlit(" changed host to ");
                    reveal_strlit("@");
                }
                self.note_first_member(sender.as_str(), note)
            },
            _ => no_actions(),
        }
    }

    /// Move the read marker of an open window.
    fn mark_read(&mut self, target: &str, timestamp: &Option<String>)
        ensures
            final(self)@ == match window_of(old(self)@, target@) {
                Some(i) => with_channel(
                    old(self)@,
                    i,
                    ChannelView { read_marker: opt_view(*timestamp), ..old(self)@.windows[i].1 },
                ),
                None => old(self)@,
            },
    {
        let ghost pre = *self;
        let found = self.find_window(target);
        proof {
            lemma_window_from(self@, target@, 0);
        }
        if let Some(i) = found {
            assert(self@.windows[i as int].1 == self.windows@[i as int].1@);
            let (name, mut ch) = self.take_window(i);
            let copy = match timestamp {
                Some(t) => Some(t.clone()),
                None => None,
            };
            ch.set_read_marker(copy);
            self.put_back(i, (name, ch));
            proof {
                lemma_view_after_put_back(pre, *self, i as int, self.windows@[i as int]);
            }
        }
    }

    /// Remove a redacted message from an open window.
    fn redact(&mut self, target: &str, msgid: &str, reason: &Option<String>) -> (acts: Vec<ClientAction<String, Vec<String>>>)
        ensures
            match window_of(old(self)@, target@) {
                Some(i) => {
                    let c = old(self)@.windows[i].1;
                    let kept = without_msgid(c.messages, msgid@);
                    &&& final(self)@ == with_channel(old(self)@, i, ChannelView { messages: kept, ..c })
                    &&& action_views(acts@) == seq![ActionView::NoteIn(
                        old(self)@.windows[i].0,
                        spec_redaction_note(kept.len() != c.messages.len(), msgid@, opt_view(*reason)),
                    )]
                },
                None => final(self)@ == old(self)@ && action_views(acts@) == Seq::<ActionView>::empty(),
            },
    {
        let ghost pre = *self;
        let found = self.find_window(target);
        proof {
            lemma_window_from(self@, target@, 0);
        }
        match found {
            None => no_actions(),
            Some(i) => {
                assert(self@.windows[i as int].1 == self.windows@[i as int].1@);
                let (name, mut ch) = self.take_window(i);
                let removed = ch.redact_message(msgid);
                let acts = note_in(&name, redaction_note(removed, msgid, opt_str(reason)));
                self.put_back(i, (name, ch));
                proof {
                    lemma_view_after_put_back(pre, *self, i as int, self.windows@[i as int]);
                }
                acts
            },
        }
    }

    /// Apply a server event (see `incoming_applied`).
    pub fn apply_incoming(&mut self, ev: &IncomingEvent<String, Vec<String>>) -> (acts: Vec<ClientAction<String, Vec<String>>>)
        ensures
            incoming_applied(old(self)@, ev@, final(self)@, action_views(acts@)),
    {
        match ev {
            IncomingEvent::Join { sender, channel, account, realname } => {
                if self.support.identifiers_equal(sender.as_str(), self.my_nick.as_str()) {
                    return self.self_join(channel);
                }
                self.member_update(channel.as_str(), sender.as_str(), true, account, realname);
                if self.hide_join_part {
                    no_actions()
                } else {
                    let t = join_note(sender.as_str(), opt_str(account), opt_str(realname), channel.as_str());
                    one_action(ClientAction::NoteIn(channel.clone(), t))
                }
            },
            IncomingEvent::Part { sender, channel, reason } => {
                if self.support.identifiers_equal(sender.as_str(), self.my_nick.as_str()) {
                    self.self_part(channel.as_str());
                    return no_actions();
                }
                self.member_update(channel.as_str(), sender.as_str(), false, &None, &None);
                if self.hide_join_part {
                    no_actions()
                } else {
                    let t = part_note(sender.as_str(), channel.as_str(), opt_str(reason));
                    one_action(ClientAction::NoteIn(channel.clone(), t))
                }
            },
            IncomingEvent::Kick { sender, channel, kicked, reason } => {
                if self.support.identifiers_equal(kicked.as_str(), self.my_nick.as_str()) {
                    let t = kick_note(kicked.as_str(), true, channel.as_str(), sender.as_str(), opt_str(reason));
                    return self.self_kicked(channel.as_str(), t);
                }
                self.member_update(channel.as_str(), kicked.as_str(), false, &None, &None);
                let t = kick_note(kicked.as_str(), false, channel.as_str(), sender.as_str(), opt_str(reason));
                one_action(ClientAction::NoteIn(channel.clone(), t))
            },
            IncomingEvent::Topic { sender, channel, topic } => self.set_window_topic(channel.as_str(), sender, topic),
            IncomingEvent::Privmsg { sender, prefix, target, text } => self.privmsg_actions(sender, prefix, target, text),
            IncomingEvent::Quit { sender, reason } => {
                let note = quit_note(sender.as_str(), opt_str(reason));
                let acts = self.quit_everywhere(sender.as_str(), note);
                if self.hide_join_part {
                    no_actions()
                } else {
                    acts
                }
            },
            IncomingEvent::Nick { sender, nick } => self.nick_changed(sender, nick),
            IncomingEvent::Mode { sender, target, modes, params } => self.mode_changed(sender, target, modes, params),
            IncomingEvent::Notice { sender, prefix, target, text, echo_message, connected, now_ms } => {
                self.notice_actions(sender, prefix, target, text, *echo_message, *connected, *now_ms)
            },
            IncomingEvent::Away { sender, message } => self.away_changed_everywhere(sender, message),
            IncomingEvent::Invite { sender, target, channel } => self.invited(sender, target, channel),
            IncomingEvent::Account { .. } => self.profile_event(ev),
            IncomingEvent::Setname { .. } => self.profile_event(ev),
            IncomingEvent::Chghost { .. } => self.profile_event(ev),
            IncomingEvent::StatusMessage { sender, status, target, text } => {
                let window = to_string(strip_status_prefix(&self.support, target.as_str()));
                one_action(ClientAction::NoteIn(window, status_message_text(sender.as_str(), *status, text.as_str())))
            },
            IncomingEvent::Markread { target, timestamp } => {
                self.mark_read(target.as_str(), timestamp);
                no_actions()
            },
            IncomingEvent::Reaction { sender, target, reaction, reply_to } => {
                let window = reaction_window(&self.support, self.my_nick.as_str(), sender.as_str(), target.as_str());
                let text = reaction_text(sender.as_str(), reaction.as_str(), opt_str(reply_to));
                one_action(ClientAction::NoteIn(window, text))
            },
            IncomingEvent::StandardReply { kind, command, code, context, description } => {
                let text = standard_reply_text(kind.as_str(), command.as_str(), code.as_str(), context.as_slice(),
                    description.as_str());
                match standard_reply_window(context.as_slice(), &self.support) {
                    Some(c) => one_action(ClientAction::NoteIn(c, text)),
                    None => one_action(ClientAction::NoteServer(text)),
                }
            },
            IncomingEvent::Redact { target, msgid, reason } => self.redact(target.as_str(), msgid.as_str(), reason),
        }
    }
}


/// The key stored for the channel's window, if one is open.
pub open spec fn stored_key(old: ClientView, channel: Seq<char>) -> Option<Seq<char>> {
    match window_of(old, channel) {
        Some(i) => old.windows[i].1.key,
        None => None,
    }
}

/// How a command plan changes the windows and what it asks of the caller:
/// lines are shown, commands and messages sent; `/query` opens (or focuses) the query
/// window; `/cycle` parts and rejoins with the stored key; closing the
/// current window parts a joined channel (the window stays until the
/// server confirms) and otherwise closes it, the first remaining window
/// becoming current. Other plans are left to the caller.
pub open spec fn plan_applied(old: ClientView, plan: crate::slash::PlanView, now_ms: u128, new: ClientView,
    acts: Seq<ActionView>) -> bool {
    match plan {
        CommandPlan::Show(ls) => new == old && acts == ls.map_values(|l: Seq<char>| ActionView::NoteCurrent(l)),
        CommandPlan::ShowInServer(ls) => new == old && acts == ls.map_values(|l: Seq<char>| ActionView::NoteServer(l)),
        CommandPlan::Send(c) => new == old && acts == seq![ActionView::Send(c)],
        CommandPlan::Join { channel, key } => new == old && acts == seq![ActionView::Send(IrcCommand::Join(channel, key))],
        CommandPlan::Part { channel, reason } => new == old && acts == seq![ActionView::Send(IrcCommand::Part(channel, reason))],
        CommandPlan::Query { target, text } => if target.len() == 0 || spec_is_channel(old.support.channel_types@, target) {
            new == old && acts == seq![ActionView::NoteServer("Unable to open query window"@)]
        } else {
            let send: Seq<ActionView> = match text {
                Some(t) => message_or_fail(old, target, t),
                None => Seq::empty(),
            };
            match window_of(old, target) {
                Some(i) => new == (ClientView { current: Some(old.windows[i].0), ..old }) && acts == send,
                None => new == (ClientView {
                    windows: old.windows.push((target, ChannelView { case_mapping: old.support.case_mapping, ..empty_channel() })),
                    current: Some(target),
                    ..old
                }) && acts == seq![ActionView::NoteIn(target, "Conversation with "@ + target)] + send,
            }
        },
        CommandPlan::Cycle(c) => new == old && acts == seq![
            ActionView::Send(IrcCommand::Part(c, Some("Cycling"@))),
            ActionView::Send(IrcCommand::Join(c, stored_key(old, c))),
        ],
        CommandPlan::Close => match old.current {
            None => new == old && acts == Seq::<ActionView>::empty(),
            Some(n) => {
                let live = spec_is_channel(old.support.channel_types@, n) && match window_of(old, n) {
                    Some(i) => old.windows[i].1.joined,
                    None => false,
                };
                if live {
                    new == old && acts == seq![ActionView::Send(IrcCommand::Part(n, None))]
                } else {
                    let ws = match window_of(old, n) {
                        Some(i) => old.windows.remove(i),
                        None => old.windows,
                    };
                    new == (ClientView { windows: ws, current: first_window(ws), ..old }) && acts == Seq::<ActionView>::empty()
                }
            },
        },
        _ => command_applied(old, plan, now_ms, new, acts),
    }
}

fn note_lines(lines: Vec<String>, server: bool) -> (r: Vec<ClientAction<String, Vec<String>>>)
    ensures
        server ==> action_views(r@) == views(lines@).map_values(|l: Seq<char>| ActionView::NoteServer(l)),
        !server ==> action_views(r@) == views(lines@).map_values(|l: Seq<char>| ActionView::NoteCurrent(l)),
{
    let mut out: Vec<ClientAction<String, Vec<String>>> = Vec::new();
    let mut i: usize = 0;
    while i < lines.len()
        invariant
            i <= lines@.len(),
            server ==> action_views(out@) == views(lines@).take(i as int).map_values(|l: Seq<char>| ActionView::NoteServer(l)),
            !server ==> action_views(out@) == views(lines@).take(i as int).map_values(|l: Seq<char>| ActionView::NoteCurrent(l)),
        decreases lines@.len() - i,
    {
        let ghost before = action_views(out@);
        assert(views(lines@)[i as int] == lines@[i as int]@);
        let l = lines[i].clone();
        if server {
            out.push(ClientAction::NoteServer(l));
        } else {
            out.push(ClientAction::NoteCurrent(l));
        }
        assert(action_views(out@) =~= before.push(out@[i as int]@));
        assert(views(lines@).take(i as int + 1) =~= views(lines@).take(i as int).push(views(lines@)[i as int]));
        proof {
            assert(views(lines@).take(i as int + 1).map_values(|l: Seq<char>| ActionView::NoteServer(l))
                =~= views(lines@).take(i as int).map_values(|l: Seq<char>| ActionView::NoteServer(l))
                    .push(ActionView::NoteServer(views(lines@)[i as int])));
            assert(views(lines@).take(i as int + 1).map_values(|l: Seq<char>| ActionView::NoteCurrent(l))
                =~= views(lines@).take(i as int).map_values(|l: Seq<char>| ActionView::NoteCurrent(l))
                    .push(ActionView::NoteCurrent(views(lines@)[i as int])));
        }
        i += 1;
    }
    assert(views(lines@).take(lines@.len() as int) =~= views(lines@));
    out
}

impl ClientState {
    fn open_query(&mut self, target: String, text: Option<String>) -> (acts: Vec<ClientAction<String, Vec<String>>>)
        ensures
            plan_applied(old(self)@, CommandPlan::Query { target: target@, text: opt_view(text) }, 0, final(self)@,
                action_views(acts@)),
    {
        let ghost pre = *self;
        if crate::text::chars_of(target.as_str()).len() == 0 || self.support.is_channel(target.as_str()) {
            return one_action(ClientAction::NoteServer(to_string("Unable to open query window")));
        }
        let found = self.find_window(target.as_str());
        proof {
            lemma_window_from(self@, target@, 0);
        }
        let mut acts = match found {
            Some(i) => {
                self.current = Some(self.windows[i].0.clone());
                assert(self@.windows =~= pre@.windows);
                no_actions()
            },
            None => {
                let mut ch = Channel::new();
                ch.set_case_mapping(self.support.case_mapping);
                self.windows.push((target.clone(), ch));
                self.current = Some(target.clone());
                assert(self@.windows =~= pre@.windows.push((target@, ChannelView {
                    case_mapping: pre@.support.case_mapping,
                    ..empty_channel()
                })));
                let mut t = to_string("Conversation with ");
                crate::text::push_str(&mut t, target.as_str());
                one_action(ClientAction::NoteIn(target.clone(), t))
            },
        };
        let ghost a = action_views(acts@);
        match text {
            Some(t) => {
                let mut more = self.message_or_fail_exec(target, t);
                let ghost m = action_views(more@);
                acts.append(&mut more);
                assert(action_views(acts@) =~= a + m);
            },
            None => {
                assert(action_views(acts@) =~= a + Seq::<ActionView>::empty());
            },
        }
        acts
    }

    fn close_current(&mut self) -> (acts: Vec<ClientAction<String, Vec<String>>>)
        ensures
            plan_applied(old(self)@, CommandPlan::Close, 0, final(self)@, action_views(acts@)),
    {
        let ghost pre = *self;
        let n = match &self.current {
            None => {
                return no_actions();
            },
            Some(n) => n.clone(),
        };
        let found = self.find_window(n.as_str());
        proof {
            lemma_window_from(self@, n@, 0);
        }
        let live = self.support.is_channel(n.as_str()) && match found {
            Some(i) => self.windows[i].1.is_joined(),
            None => false,
        };
        if live {
            return one_action(ClientAction::Send(IrcCommand::Part(n, None)));
        }
        if let Some(i) = found {
            let _ = self.take_window(i);
            assert(self@.windows =~= pre@.windows.remove(i as int));
        }
        self.current = if self.windows.len() > 0 { Some(self.windows[0].0.clone()) } else { None };
        no_actions()
    }

    /// Carry out a command plan (see `plan_applied`).
    /// Carry out a command plan, reading the clock for a CTCP PING (see
    /// `apply_plan_at`).
    pub fn apply_plan(&mut self, plan: CommandPlan<String, Vec<String>>) -> (acts: Vec<ClientAction<String, Vec<String>>>)
        ensures
            exists|now_ms: u128| plan_applied(old(self)@, plan@, now_ms, final(self)@, action_views(acts@)),
    {
        let now = crate::session::unix_now_millis();
        self.apply_plan_at(plan, now)
    }

    /// Carry out a command plan at clock `now_ms` (see `plan_applied`).
    pub fn apply_plan_at(&mut self, plan: CommandPlan<String, Vec<String>>, now_ms: u128)
        -> (acts: Vec<ClientAction<String, Vec<String>>>)
        ensures
            plan_applied(old(self)@, plan@, now_ms, final(self)@, action_views(acts@)),
    {
        match plan {
            CommandPlan::Show(ls) => note_lines(ls, false),
            CommandPlan::ShowInServer(ls) => note_lines(ls, true),
            CommandPlan::Send(c) => one_action(ClientAction::Send(c)),
            CommandPlan::Join { channel, key } => one_action(ClientAction::Send(IrcCommand::Join(channel, key))),
            CommandPlan::Part { channel, reason } => one_action(ClientAction::Send(IrcCommand::Part(channel, reason))),
            CommandPlan::Query { target, text } => self.open_query(target, text),
            CommandPlan::Cycle(c) => {
                let found = self.find_window(c.as_str());
                proof {
                    lemma_window_from(self@, c@, 0);
                }
                let key = match found {
                    Some(i) => self.windows[i].1.key_text(),
                    None => None,
                };
                let mut acts: Vec<ClientAction<String, Vec<String>>> = Vec::new();
                acts.push(ClientAction::Send(IrcCommand::Part(c.clone(), Some(to_string("Cycling")))));
                acts.push(ClientAction::Send(IrcCommand::Join(c, key)));
                assert(action_views(acts@) =~= seq![acts@[0]@, acts@[1]@]);
                acts
            },
            CommandPlan::Close => self.close_current(),
            _ => self.apply_command(plan, now_ms),
        }
    }
}


/// The lines `/lastlog` shows: the search, the hits (see `spec_lastlog`)
/// and their number.
pub open spec fn lastlog_report(msgs: Seq<ChatMessage>, p: Seq<char>) -> Seq<Seq<char>> {
    let hits = spec_lastlog(msgs, p);
    seq!["Searching for: "@ + p] + hits + seq!["Found "@ + dec(hits.len()) + " matches"@]
}

/// How a line of shown text is marked.
#[derive(Debug, Clone, Copy, PartialEq, Eq, Structural)]
pub enum LineKind {
    Server,
    Current,
    ServerUnlogged,
    CurrentUnlogged,
}

pub open spec fn line_action(kind: LineKind, l: Seq<char>) -> ActionView {
    match kind {
        LineKind::Server => ActionView::NoteServer(l),
        LineKind::Current => ActionView::NoteCurrent(l),
        LineKind::ServerUnlogged => ActionView::NoteServerUnlogged(l),
        LineKind::CurrentUnlogged => ActionView::NoteCurrentUnlogged(l),
    }
}

/// Lines shown as system lines of one kind, in order.
pub open spec fn lines_as(kind: LineKind, ls: Seq<Seq<char>>) -> Seq<ActionView> {
    ls.map_values(|l: Seq<char>| line_action(kind, l))
}

/// A message can go out: registered, with a connection open.
pub open spec fn can_message(v: ClientView) -> bool {
    v.session.reconnect.connected && v.session.online
}

/// Every window left unjoined.
pub open spec fn unjoined(ws: Seq<(Seq<char>, ChannelView)>) -> Seq<(Seq<char>, ChannelView)> {
    ws.map_values(|w: (Seq<char>, ChannelView)| (w.0, ChannelView { joined: false, ..w.1 }))
}

pub open spec fn clamp_reason(r: Option<Seq<char>>) -> Option<Seq<char>> {
    match r {
        Some(s) => Some(spec_clamp_quit_reason(s)),
        None => None,
    }
}

/// The state after a disconnect the user asked for: nothing is pending,
/// the connection is dropped, no window is joined and no channel list is
/// loading; the auto-reconnect setting is kept.
pub open spec fn manually_disconnected(v: ClientView) -> ClientView {
    ClientView {
        windows: unjoined(v.windows),
        session: SessionView {
            online: false,
            intent: ConnectionIntent::ManualDisconnect,
            channel_list_loading: false,
            reconnect: ReconnectState { connected: false, connecting: false, connection_lost: false, ..v.session.reconnect },
            ..v.session
        },
        ..v
    }
}

/// A QUIT with the clamped reason if a connection is open, then the
/// connection is dropped.
pub open spec fn disconnect_actions(v: ClientView, reason: Option<Seq<char>>) -> Seq<ActionView> {
    (if v.session.online {
        seq![ActionView::Send(IrcCommand::Quit(clamp_reason(reason)))]
    } else {
        Seq::empty()
    }) + seq![ActionView::CloseConnection]
}

/// The state after the connection dropped on its own: every window is
/// unjoined, nothing is online, and the reconnect state records the loss.
pub open spec fn connection_lost(v: ClientView) -> ClientView {
    ClientView {
        windows: unjoined(v.windows),
        session: SessionView {
            online: false,
            reconnect: ReconnectState { connected: false, connection_lost: true, ..v.session.reconnect },
            ..v.session
        },
        ..v
    }
}

/// A connection that drops on its own, with auto-reconnect on, no attempt
/// under way and retries left, is waiting to be retried; and an attempt,
/// once started, counts one more try and is no longer waiting.
pub proof fn lemma_lost_connection_is_retried(v: ClientView)
    requires
        v.session.reconnect.auto_reconnect,
        !v.session.reconnect.connecting,
        v.session.reconnect.reconnect_attempts < v.session.reconnect.max_reconnect_attempts,
    ensures
        connection_lost(v).session.reconnect.awaiting_reconnect_spec(),
        reconnect_started(connection_lost(v)).session.reconnect.reconnect_attempts
            == v.session.reconnect.reconnect_attempts + 1,
        !reconnect_started(connection_lost(v)).session.reconnect.awaiting_reconnect_spec(),
{
}

/// The reconnect state once an automatic attempt starts.
pub open spec fn reconnect_started(v: ClientView) -> ClientView {
    let r = v.session.reconnect;
    ClientView {
        session: SessionView {
            reconnect: ReconnectState {
                reconnect_attempts: (r.reconnect_attempts + 1) as u32,
                connecting: true,
                connection_lost: false,
                ..r
            },
            ..v.session
        },
        ..v
    }
}

/// An automatic attempt opens a connection and notes the attempt's number
/// and the backoff that the next one would wait.
pub open spec fn reconnect_started_actions(v: ClientView) -> Seq<ActionView> {
    let r = reconnect_started(v).session.reconnect;
    seq![
        ActionView::StartConnect,
        ActionView::NoteServer("Reconnecting... (attempt "@ + dec(r.reconnect_attempts as nat) + ", next retry in "@
            + dec(spec_reconnect_delay(r.reconnect_delay_secs, r.reconnect_attempts)) + "s)"@),
    ]
}

/// The state after `/reconnect`: an open connection is closed to be
/// reopened once its worker exits; otherwise a new connection starts.
pub open spec fn reconnecting(v: ClientView) -> ClientView {
    let r = v.session.reconnect;
    ClientView {
        windows: unjoined(v.windows),
        session: if v.session.online {
            SessionView {
                online: false,
                intent: ConnectionIntent::ReconnectAfterClose,
                channel_list_loading: false,
                reconnect: ReconnectState { connected: false, connecting: false, connection_lost: false, ..r },
                ..v.session
            }
        } else {
            SessionView {
                intent: ConnectionIntent::Idle,
                channel_list_loading: false,
                reconnect: ReconnectState { connected: false, connecting: true, connection_lost: false, ..r },
                ..v.session
            }
        },
        ..v
    }
}

pub open spec fn reconnect_actions(v: ClientView) -> Seq<ActionView> {
    (if v.session.online {
        seq![
            ActionView::Send(IrcCommand::Quit(Some(spec_clamp_quit_reason("Reconnecting"@)))),
            ActionView::CloseConnection,
        ]
    } else {
        seq![ActionView::StartConnect]
    }) + seq![ActionView::NoteServer("Reconnecting..."@)]
}

/// The numbered ignore list.
pub open spec fn ignore_lines(list: Seq<Seq<char>>) -> Seq<Seq<char>> {
    Seq::new(list.len(), |i: int| "  "@ + dec((i + 1) as nat) + ". "@ + list[i])
}

/// A message or action to every channel window, in window order, each
/// echoed there.
pub open spec fn broadcast_actions(ws: Seq<(Seq<char>, ChannelView)>, types: Seq<char>, me: Seq<char>,
    text: Seq<char>, action: bool) -> Seq<ActionView>
    decreases ws.len(),
{
    if ws.len() == 0 {
        Seq::empty()
    } else {
        let rest = broadcast_actions(ws.drop_last(), types, me, text, action);
        let name = ws.last().0;
        if spec_is_channel(types, name) {
            rest + seq![
                if action { ActionView::SendAction(name, text) } else { ActionView::SendText(name, text) },
                ActionView::Deliver { window: name, sender: me, text: text, action: action, highlight: false },
            ]
        } else {
            rest
        }
    }
}

/// One MODE per nick.
pub open spec fn mode_actions(channel: Seq<char>, mode: Seq<char>, nicks: Seq<Seq<char>>) -> Seq<ActionView> {
    nicks.map_values(|n: Seq<char>| ActionView::Send(IrcCommand::Mode(channel, Some(mode), seq![n])))
}

/// A message for `target`, or the line saying it was not sent.
pub open spec fn message_or_fail(v: ClientView, target: Seq<char>, text: Seq<char>) -> Seq<ActionView> {
    if can_message(v) {
        seq![ActionView::Message(target, text)]
    } else {
        seq![ActionView::NoteCurrent("Not connected - message not sent"@)]
    }
}

/// A command, and a confirmation, when a connection is open; else a failure line.
pub open spec fn sent_or(v: ClientView, cmd: IrcCommand<Seq<char>, Seq<Seq<char>>>, done: Seq<char>, failed: Seq<char>)
    -> Seq<ActionView> {
    if v.session.online {
        seq![ActionView::Send(cmd), ActionView::NoteCurrent(done)]
    } else {
        seq![ActionView::NoteCurrent(failed)]
    }
}

/// How the remaining command plans change the state and what they ask of
/// the caller; `now_ms` is the clock in milliseconds (for a CTCP PING).
pub open spec fn command_applied(old: ClientView, plan: crate::slash::PlanView, now_ms: u128, new: ClientView,
    acts: Seq<ActionView>) -> bool {
    let types = old.support.channel_types@;
    match plan {
        CommandPlan::Message { target, text } => new == old && acts == message_or_fail(old, target, text),
        CommandPlan::Say { target, text } => new == old && acts == message_or_fail(old, target, text),
        CommandPlan::Service { service, text } => new == old && acts == message_or_fail(old, service, text),
        CommandPlan::Action { target, text } => new == old && acts == if can_message(old) {
            seq![
                ActionView::SendAction(target, text),
                ActionView::Deliver { window: target, sender: old.my_nick, text: text, action: true, highlight: false },
            ]
        } else {
            seq![ActionView::NoteCurrent("Not connected - action not sent"@)]
        },
        CommandPlan::Notice { target, text } => new == old && acts == if can_message(old) {
            seq![
                ActionView::SendNotice(target, text),
                if spec_service_message_contains_credentials(target, text) {
                    ActionView::NoteCurrentUnlogged("-> -"@ + target + "- <credential command sent>"@)
                } else {
                    ActionView::NoteCurrent("-> -"@ + target + "- "@ + text)
                },
            ]
        } else {
            seq![ActionView::NoteCurrent("Not connected - notice not sent"@)]
        },
        CommandPlan::Broadcast { text, action } => new == old && acts == if !old.session.reconnect.connected {
            seq![ActionView::NoteCurrent(
                if action { "Not connected - action not sent"@ } else { "Not connected - message not sent"@ },
            )]
        } else if old.session.online {
            broadcast_actions(old.windows, types, old.my_nick, text, action)
        } else {
            Seq::empty()
        },
        CommandPlan::Away(m) => if old.session.online {
            &&& new == (ClientView {
                windows: away_windows(old.windows, old.my_nick, m),
                session: SessionView { away_status: m, auto_away_triggered: false, ..old.session },
                ..old
            })
            &&& acts == seq![
                ActionView::Send(IrcCommand::Away(m)),
                ActionView::NoteServer(match m {
                    Some(r) => "You are now marked as away: "@ + r,
                    None => "You are no longer marked as away"@,
                }),
            ]
        } else {
            new == old && acts == seq![ActionView::NoteServer("Not connected - away status not changed"@)]
        },
        CommandPlan::Quit(reason) => new == manually_disconnected(old) && acts == disconnect_actions(old, Some(reason)),
        CommandPlan::Disconnect(reason) => {
            let r = old.session.reconnect;
            if r.connected || r.connecting || r.connection_lost || old.session.online {
                new == manually_disconnected(old)
                    && acts == disconnect_actions(old, reason).push(ActionView::NoteServer("Disconnected from server"@))
            } else {
                new == old && acts == seq![ActionView::NoteServer("Not connected"@)]
            }
        },
        CommandPlan::Reconnect => new == reconnecting(old) && acts == reconnect_actions(old),
        CommandPlan::History { target, limit } => new == old
            && acts == seq![ActionView::RequestHistory { target: target, limit: limit }],
        CommandPlan::Ctcp { target, command, payload } => new == old && acts == sent_or(old,
            IrcCommand::Privmsg(target, payload), "[CTCP] Sent "@ + command + " to "@ + target,
            "CTCP request not sent (not connected or message too long)"@),
        CommandPlan::CtcpVersion(t) => new == old && acts == sent_or(old,
            IrcCommand::Privmsg(t, "\u{1}VERSION\u{1}"@), "[CTCP] Sent VERSION to "@ + t,
            "CTCP VERSION not sent (not connected or message too long)"@),
        CommandPlan::CtcpPing(t) => new == old && acts == sent_or(old,
            IrcCommand::Privmsg(t, "\u{1}PING "@ + dec(now_ms as nat) + "\u{1}"@), "[CTCP] Sent PING to "@ + t,
            "CTCP PING not sent (not connected or message too long)"@),
        CommandPlan::ListChannels(filter) => if old.session.online {
            new == (ClientView { session: SessionView { channel_list_loading: true, ..old.session }, ..old })
                && acts == seq![ActionView::Send(IrcCommand::List(filter)), ActionView::ResetChannelList]
        } else {
            new == (ClientView { session: SessionView { channel_list_loading: false, ..old.session }, ..old })
                && acts == seq![ActionView::NoteServer("Not connected - channel list was not refreshed"@)]
        },
        CommandPlan::Kickban { channel, mask, kick } => new == old && acts == seq![
            ActionView::Send(IrcCommand::Mode(channel, Some("+b"@), seq![mask])),
            match kick {
                Some((nick, reason)) => ActionView::Send(IrcCommand::Kick(channel, nick, reason)),
                None => ActionView::NoteCurrent("Ban set. /kickban with a hostmask cannot kick - use /kick <nick>."@),
            },
        ],
        CommandPlan::SetModes { channel, mode, nicks } => new == old
            && acts == mode_actions(channel, mode, nicks),
        CommandPlan::Invite { nick, channel } => new == old && acts == sent_or(old, IrcCommand::Invite(nick, channel),
            "Inviting "@ + nick + " to "@ + channel, "Invite not sent (not connected or command too long)"@),
        CommandPlan::Knock(c) => new == old && acts == sent_or(old, IrcCommand::Raw("KNOCK "@ + c), "Knocking on "@ + c,
            "Knock request not sent (not connected or command too long)"@),
        CommandPlan::Server { host, port } => new == old && acts == seq![ActionView::SwitchServer { host: host, port: port }],
        CommandPlan::ShowServer => new == old && acts == seq![ActionView::ShowServer],
        CommandPlan::Clear => acts == match old.current {
            Some(_) => Seq::<ActionView>::empty(),
            None => seq![ActionView::ClearServer],
        } && new == match old.current {
            Some(c) => match window_of(old, c) {
                Some(i) => with_channel(old, i, ChannelView { messages: Seq::empty(), ..old.windows[i].1 }),
                None => old,
            },
            None => old,
        },
        CommandPlan::Ignore(m) => {
            let key = spec_network_canonicalize(old.support.case_mapping, types, m);
            if !has_ignore_key(old.support, old.ignore_list, key) {
                new == (ClientView { ignore_list: old.ignore_list.push(m), ignore_keys: old.ignore_keys.push(key), ..old })
                    && acts == seq![ActionView::NoteCurrent("Now ignoring: "@ + m), ActionView::SaveSettings]
            } else {
                new == old && acts == seq![ActionView::NoteCurrent("Already ignoring: "@ + m)]
            }
        },
        CommandPlan::Unignore(m) => {
            let key = spec_network_canonicalize(old.support.case_mapping, types, m);
            let kept = keep_other_keys(old.support.case_mapping, old.ignore_list, key);
            if kept.len() < old.ignore_list.len() {
                new == (ClientView { ignore_list: kept, ignore_keys: keys_of(old.support.case_mapping, kept), ..old })
                    && acts == seq![ActionView::NoteCurrent("No longer ignoring: "@ + m), ActionView::SaveSettings]
            } else {
                new == (ClientView { ignore_list: kept, ..old })
                    && acts == seq![ActionView::NoteCurrent("Not in ignore list: "@ + m)]
            }
        },
        CommandPlan::ShowIgnores => new == old && acts == if old.ignore_list.len() == 0 {
            seq![ActionView::NoteCurrent("Ignore list is empty"@)]
        } else {
            seq![ActionView::NoteCurrent("Ignored users/masks:"@)] + lines_as(LineKind::Current, ignore_lines(old.ignore_list))
        },
        CommandPlan::Lastlog(p) => new == old && acts == match old.current {
            None => seq![ActionView::LastlogServer(p)],
            Some(c) => lines_as(LineKind::CurrentUnlogged, lastlog_report(match window_of(old, c) {
                Some(i) => old.windows[i].1.messages,
                None => Seq::empty(),
            }, p)),
        },
        CommandPlan::ShowPerform => new == old && acts == if old.session.auto_perform.len() == 0 {
            seq![ActionView::NoteCurrent("No auto-perform commands set. Use /perform <command> to add."@)]
        } else {
            seq![ActionView::NoteCurrentUnlogged("Auto-perform commands:"@)]
                + lines_as(LineKind::CurrentUnlogged, spec_perform_listing(old.session.auto_perform))
        },
        CommandPlan::ClearPerform => new == (ClientView {
            session: SessionView { auto_perform: Seq::empty(), ..old.session },
            ..old
        }) && acts == seq![ActionView::SaveSettings, ActionView::NoteCurrent("Auto-perform commands cleared."@)],
        CommandPlan::AddPerform(c) => new == (ClientView {
            session: SessionView {
                auto_perform: if old.session.auto_perform.len() == 0 { c } else { old.session.auto_perform + seq!['\n'] + c },
                ..old.session
            },
            ..old
        }) && acts == seq![ActionView::SaveSettings, ActionView::NoteCurrentUnlogged("Added command to auto-perform."@)],
        CommandPlan::Settings => new == old && acts == seq![ActionView::OpenSettings],
        CommandPlan::Help => new == old && acts == lines_as(LineKind::ServerUnlogged, spec_help_lines()),
        _ => new == old && acts == Seq::<ActionView>::empty(),
    }
}

/// The lines `/lastlog` shows for a window's messages (see `lastlog_report`).
pub fn lastlog_lines(msgs: &std::collections::VecDeque<ChatMessage>, p: &str) -> (r: Vec<String>)
    ensures
        views(r@) == lastlog_report(msgs@, p@),
{
    let hits = crate::slash::lastlog(msgs, p);
    let n = hits.len();
    let mut out: Vec<String> = Vec::new();
    out.push(concat_str("Searching for: ", p));
    let ghost h = views(hits@);
    let mut i: usize = 0;
    while i < hits.len()
        invariant
            i <= hits@.len(),
            h == views(hits@),
            views(out@) == seq!["Searching for: "@ + p@] + h.take(i as int),
        decreases hits@.len() - i,
    {
        let ghost before = views(out@);
        out.push(hits[i].clone());
        assert(views(out@) =~= before.push(h[i as int]));
        assert(h.take(i as int + 1) =~= h.take(i as int).push(h[i as int]));
        i += 1;
    }
    let mut last = to_string("Found ");
    push_dec(&mut last, n as u64);
    push_str(&mut last, " matches");
    proof {
        reveal_strlit("Searching for: ");
        reveal_strlit("Found ");
        reveal_strlit(" matches");
    }
    let ghost before = views(out@);
    out.push(last);
    assert(h.take(i as int) =~= h);
    assert(views(out@) =~= before.push(last@));
    assert(views(out@) =~= lastlog_report(msgs@, p@));
    out
}

/// Lines as system lines of one kind (see `lines_as`).
fn note_lines_as(lines: Vec<String>, kind: LineKind) -> (r: Vec<ClientAction<String, Vec<String>>>)
    ensures
        action_views(r@) == lines_as(kind, views(lines@)),
{
    let mut out: Vec<ClientAction<String, Vec<String>>> = Vec::new();
    let mut i: usize = 0;
    while i < lines.len()
        invariant
            i <= lines@.len(),
            action_views(out@) == lines_as(kind, views(lines@).take(i as int)),
        decreases lines@.len() - i,
    {
        let ghost before = action_views(out@);
        assert(views(lines@)[i as int] == lines@[i as int]@);
        let l = lines[i].clone();
        let a = match kind {
            LineKind::Server => ClientAction::NoteServer(l),
            LineKind::Current => ClientAction::NoteCurrent(l),
            LineKind::ServerUnlogged => ClientAction::NoteServerUnlogged(l),
            LineKind::CurrentUnlogged => ClientAction::NoteCurrentUnlogged(l),
        };
        out.push(a);
        assert(action_views(out@) =~= before.push(out@[i as int]@));
        assert(views(lines@).take(i as int + 1) =~= views(lines@).take(i as int).push(views(lines@)[i as int]));
        assert(lines_as(kind, views(lines@).take(i as int + 1))
            =~= lines_as(kind, views(lines@).take(i as int)).push(line_action(kind, views(lines@)[i as int])));
        i += 1;
    }
    assert(views(lines@).take(i as int) =~= views(lines@));
    out
}

/// The numbered ignore list (see `ignore_lines`).
fn ignore_lines_exec(list: &Vec<String>) -> (r: Vec<String>)
    ensures
        views(r@) == ignore_lines(views(list@)),
{
    let mut out: Vec<String> = Vec::new();
    let mut i: usize = 0;
    while i < list.len()
        invariant
            i <= list@.len(),
            views(out@) == ignore_lines(views(list@)).take(i as int),
        decreases list@.len() - i,
    {
        let mut line = to_string("  ");
        push_dec(&mut line, (i + 1) as u64);
        push_str(&mut line, ". ");
        push_str(&mut line, list[i].as_str());
        proof {
            reveal_strlit("  ");
            reveal_strlit(". ");
        }
        let ghost before = views(out@);
        out.push(line);
        assert(views(list@)[i as int] == list@[i as int]@);
        assert(views(out@) =~= before.push(out@[i as int]@));
        assert(ignore_lines(views(list@)).take(i as int + 1)
            =~= ignore_lines(views(list@)).take(i as int).push(ignore_lines(views(list@))[i as int]));
        i += 1;
    }
    assert(ignore_lines(views(list@)).take(i as int) =~= ignore_lines(views(list@)));
    out
}

fn set_modes(channel: &String, mode: &String, nicks: &Vec<String>) -> (r: Vec<ClientAction<String, Vec<String>>>)
    ensures
        action_views(r@) == mode_actions(channel@, mode@, views(nicks@)),
{
    let ghost f = |n: Seq<char>| ActionView::Send(IrcCommand::Mode(channel@, Some(mode@), seq![n]));
    let mut out: Vec<ClientAction<String, Vec<String>>> = Vec::new();
    let mut i: usize = 0;
    while i < nicks.len()
        invariant
            i <= nicks@.len(),
            f == (|n: Seq<char>| ActionView::Send(IrcCommand::Mode(channel@, Some(mode@), seq![n]))),
            action_views(out@) == views(nicks@).take(i as int).map_values(f),
        decreases nicks@.len() - i,
    {
        let ghost before = action_views(out@);
        let mut one: Vec<String> = Vec::new();
        one.push(nicks[i].clone());
        assert(views(one@) =~= seq![views(nicks@)[i as int]]);
        out.push(ClientAction::Send(IrcCommand::Mode(channel.clone(), Some(mode.clone()), one)));
        assert(action_views(out@) =~= before.push(out@[i as int]@));
        assert(views(nicks@).take(i as int + 1) =~= views(nicks@).take(i as int).push(views(nicks@)[i as int]));
        assert(views(nicks@).take(i as int + 1).map_values(f) =~= views(nicks@).take(i as int).map_values(f).push(
            f(views(nicks@)[i as int])));
        i += 1;
    }
    assert(views(nicks@).take(i as int) =~= views(nicks@));
    assert(action_views(out@) =~= mode_actions(channel@, mode@, views(nicks@)));
    out
}

fn two_actions(a: ClientAction<String, Vec<String>>, b: ClientAction<String, Vec<String>>)
    -> (r: Vec<ClientAction<String, Vec<String>>>)
    ensures
        action_views(r@) == seq![a@, b@],
{
    let mut v: Vec<ClientAction<String, Vec<String>>> = Vec::new();
    v.push(a);
    v.push(b);
    assert(action_views(v@) =~= seq![v@[0]@, v@[1]@]);
    v
}

fn concat_str(a: &str, b: &str) -> (r: String)
    ensures
        r@ == a@ + b@,
{
    let mut r = to_string(a);
    push_str(&mut r, b);
    r
}

fn concat3(a: &str, b: &str, c: &str) -> (r: String)
    ensures
        r@ == a@ + b@ + c@,
{
    let mut r = to_string(a);
    push_str(&mut r, b);
    push_str(&mut r, c);
    r
}

impl ClientState {
    /// A message for `target`, or the line saying it was not sent (see `message_or_fail`).
    fn message_or_fail_exec(&self, target: String, text: String) -> (r: Vec<ClientAction<String, Vec<String>>>)
        ensures
            action_views(r@) == message_or_fail(self@, target@, text@),
    {
        if self.session.reconnect.connected && self.session.online {
            one_action(ClientAction::Message(target, text))
        } else {
            let t = to_string("Not connected - message not sent");
            proof {
                reveal_strlit("Not connected - message not sent");
            }
            one_action(ClientAction::NoteCurrent(t))
        }
    }

    /// A command and its confirmation, or the failure line (see `sent_or`).
    fn sent_or_exec(&self, cmd: IrcCommand<String, Vec<String>>, done: String, failed: String)
        -> (r: Vec<ClientAction<String, Vec<String>>>)
        ensures
            action_views(r@) == sent_or(self@, cmd@, done@, failed@),
    {
        if self.session.online {
            two_actions(ClientAction::Send(cmd), ClientAction::NoteCurrent(done))
        } else {
            one_action(ClientAction::NoteCurrent(failed))
        }
    }

    /// Leave every window unjoined.
    fn unjoin_all(&mut self)
        ensures
            final(self)@ == (ClientView { windows: unjoined(old(self)@.windows), ..old(self)@ }),
    {
        let ghost pre = self@;
        let n = self.windows.len();
        let mut i: usize = 0;
        while i < n
            invariant
                n == pre.windows.len(),
                i <= n,
                self@.windows.len() == n,
                forall|j: int| 0 <= j < i ==> #[trigger] self@.windows[j]
                    == (pre.windows[j].0, ChannelView { joined: false, ..pre.windows[j].1 }),
                forall|j: int| i <= j < n ==> #[trigger] self@.windows[j] == pre.windows[j],
                self@ == (ClientView { windows: self@.windows, ..pre }),
            decreases n - i,
        {
            let ghost before = *self;
            let (name, mut ch) = self.take_window(i);
            ch.set_joined(false);
            self.put_back(i, (name, ch));
            proof {
                lemma_view_after_put_back(before, *self, i as int, self.windows@[i as int]);
            }
            i += 1;
        }
        assert(self@.windows =~= unjoined(pre.windows));
    }

    /// A disconnect the user asked for (see `manually_disconnected` and
    /// `disconnect_actions`): the QUIT carries the reason cut to fit a line.
    pub fn request_manual_disconnect(&mut self, reason: Option<String>) -> (acts: Vec<ClientAction<String, Vec<String>>>)
        ensures
            final(self)@ == manually_disconnected(old(self)@),
            action_views(acts@) == disconnect_actions(old(self)@, opt_view(reason)),
    {
        let ghost pre = self@;
        let mut acts: Vec<ClientAction<String, Vec<String>>> = Vec::new();
        if self.session.online {
            acts.push(ClientAction::Send(IrcCommand::Quit(clamp_quit_reason(reason))));
        }
        acts.push(ClientAction::CloseConnection);
        self.unjoin_all();
        self.session.online = false;
        self.session.intent = ConnectionIntent::ManualDisconnect;
        self.session.channel_list_loading = false;
        self.session.reconnect.connected = false;
        self.session.reconnect.connecting = false;
        self.session.reconnect.connection_lost = false;
        assert(action_views(acts@) =~= disconnect_actions(pre, opt_view(reason)));
        acts
    }

    /// The connection dropped without being asked to (see `connection_lost`):
    /// the windows are unjoined and an automatic retry may follow.
    pub fn mark_connection_lost(&mut self)
        ensures
            final(self)@ == connection_lost(old(self)@),
    {
        self.unjoin_all();
        self.session.online = false;
        self.session.reconnect.mark_connection_lost();
    }

    /// The periodic reconnect check, given the whole seconds since the
    /// connection dropped (`None` when unknown): when a retry is due (see
    /// `ReconnectState::should_reconnect`) the attempt counter goes up, a
    /// connection is started and the next backoff is noted; otherwise
    /// nothing changes.
    pub fn reconnect_if_due(&mut self, secs_since_disconnect: Option<u64>) -> (acts: Vec<ClientAction<String, Vec<String>>>)
        ensures
            ({
                let r = old(self)@.session.reconnect;
                let due = r.awaiting_reconnect_spec() && match secs_since_disconnect {
                    Some(e) => e as nat >= spec_reconnect_delay(r.reconnect_delay_secs, r.reconnect_attempts),
                    None => true,
                };
                if due {
                    &&& final(self)@ == reconnect_started(old(self)@)
                    &&& action_views(acts@) == reconnect_started_actions(old(self)@)
                } else {
                    &&& final(self)@ == old(self)@
                    &&& acts@.len() == 0
                }
            }),
    {
        let ghost pre = self@;
        let mut acts: Vec<ClientAction<String, Vec<String>>> = Vec::new();
        if !self.session.reconnect.should_reconnect(secs_since_disconnect) {
            return acts;
        }
        self.session.reconnect.start_reconnect();
        let attempts = self.session.reconnect.reconnect_attempts;
        let delay = self.session.reconnect.get_reconnect_delay();
        let mut note = to_string("Reconnecting... (attempt ");
        push_dec(&mut note, attempts as u64);
        push_str(&mut note, ", next retry in ");
        push_dec(&mut note, delay);
        push_str(&mut note, "s)");
        proof {
            reveal_strlit("Reconnecting... (attempt ");
            reveal_strlit(", next retry in ");
            reveal_strlit("s)");
        }
        acts.push(ClientAction::StartConnect);
        acts.push(ClientAction::NoteServer(note));
        assert(action_views(acts@) =~= reconnect_started_actions(pre));
        acts
    }

    /// `/reconnect` (see `reconnecting` and `reconnect_actions`).
    fn reconnect_after_close(&mut self) -> (acts: Vec<ClientAction<String, Vec<String>>>)
        ensures
            final(self)@ == reconnecting(old(self)@),
            action_views(acts@) == reconnect_actions(old(self)@),
    {
        let ghost pre = self@;
        let mut acts: Vec<ClientAction<String, Vec<String>>> = Vec::new();
        self.unjoin_all();
        if self.session.online {
            let reason = clamp_quit_reason(Some(to_string("Reconnecting")));
            proof {
                reveal_strlit("Reconnecting");
            }
            acts.push(ClientAction::Send(IrcCommand::Quit(reason)));
            acts.push(ClientAction::CloseConnection);
            self.session.online = false;
            self.session.intent = ConnectionIntent::ReconnectAfterClose;
            self.session.reconnect.connecting = false;
        } else {
            acts.push(ClientAction::StartConnect);
            self.session.intent = ConnectionIntent::Idle;
            self.session.reconnect.connecting = true;
        }
        self.session.channel_list_loading = false;
        self.session.reconnect.connected = false;
        self.session.reconnect.connection_lost = false;
        acts.push(ClientAction::NoteServer(to_string("Reconnecting...")));
        proof {
            reveal_strlit("Reconnecting...");
        }
        assert(action_views(acts@) =~= reconnect_actions(pre));
        acts
    }

    /// A message or action to every channel window (see `broadcast_actions`).
    fn broadcast(&self, text: &String, action: bool) -> (acts: Vec<ClientAction<String, Vec<String>>>)
        ensures
            action_views(acts@) == broadcast_actions(self@.windows, self.support.channel_types@, self.my_nick@, text@,
                action),
    {
        let ghost ws = self@.windows;
        let ghost types = self.support.channel_types@;
        let mut acts: Vec<ClientAction<String, Vec<String>>> = Vec::new();
        let mut i: usize = 0;
        while i < self.windows.len()
            invariant
                i <= self.windows@.len(),
                ws == self@.windows,
                types == self.support.channel_types@,
                action_views(acts@) == broadcast_actions(ws.take(i as int), types, self.my_nick@, text@, action),
            decreases self.windows@.len() - i,
        {
            let ghost before = action_views(acts@);
            assert(ws.take(i + 1).drop_last() =~= ws.take(i as int));
            assert(ws[i as int].0 == self.windows@[i as int].0@);
            let name = self.windows[i].0.clone();
            if self.support.is_channel(name.as_str()) {
                let send = if action {
                    ClientAction::SendAction(name.clone(), text.clone())
                } else {
                    ClientAction::SendText(name.clone(), text.clone())
                };
                acts.push(send);
                acts.push(ClientAction::Deliver {
                    window: name,
                    sender: self.my_nick.clone(),
                    text: text.clone(),
                    action,
                    highlight: false,
                });
                assert(action_views(acts@) =~= before + seq![acts@[acts@.len() - 2]@, acts@[acts@.len() - 1]@]);
            }
            i += 1;
        }
        assert(ws.take(i as int) =~= ws);
        acts
    }

    /// Empty the current window (see `command_applied`, `Clear`).
    fn clear_current(&mut self, now_ms: u128) -> (acts: Vec<ClientAction<String, Vec<String>>>)
        ensures
            command_applied(old(self)@, CommandPlan::Clear, now_ms, final(self)@, action_views(acts@)),
    {
        let ghost pre = *self;
        let c = match &self.current {
            None => {
                return one_action(ClientAction::ClearServer);
            },
            Some(c) => c.clone(),
        };
        let found = self.find_window(c.as_str());
        proof {
            lemma_window_from(self@, c@, 0);
        }
        if let Some(i) = found {
            assert(self@.windows[i as int].1 == self.windows@[i as int].1@);
            let (name, mut ch) = self.take_window(i);
            ch.clear_messages();
            self.put_back(i, (name, ch));
            proof {
                lemma_view_after_put_back(pre, *self, i as int, self.windows@[i as int]);
            }
        }
        no_actions()
    }

    /// Search the current window (see `command_applied`, `Lastlog`).
    fn lastlog_current(&self, p: String, now_ms: u128) -> (acts: Vec<ClientAction<String, Vec<String>>>)
        ensures
            command_applied(self@, CommandPlan::Lastlog(p@), now_ms, self@, action_views(acts@)),
    {
        let c = match &self.current {
            None => {
                return one_action(ClientAction::LastlogServer(p));
            },
            Some(c) => c.clone(),
        };
        let found = self.find_window(c.as_str());
        proof {
            lemma_window_from(self@, c@, 0);
        }
        let lines = match found {
            Some(i) => {
                assert(self@.windows[i as int].1 == self.windows@[i as int].1@);
                lastlog_lines(self.windows[i].1.message_list(), p.as_str())
            },
            None => {
                let empty: std::collections::VecDeque<ChatMessage> = std::collections::VecDeque::new();
                assert(empty@ =~= Seq::<ChatMessage>::empty());
                lastlog_lines(&empty, p.as_str())
            },
        };
        note_lines_as(lines, LineKind::CurrentUnlogged)
    }

    /// The `/perform` listing (see `command_applied`, `ShowPerform`).
    fn show_perform(&self, now_ms: u128) -> (acts: Vec<ClientAction<String, Vec<String>>>)
        ensures
            command_applied(self@, CommandPlan::ShowPerform, now_ms, self@, action_views(acts@)),
    {
        if crate::text::chars_of(self.session.auto_perform.as_str()).len() == 0 {
            let t = to_string("No auto-perform commands set. Use /perform <command> to add.");
            proof {
                reveal_strlit("No auto-perform commands set. Use /perform <command> to add.");
            }
            return one_action(ClientAction::NoteCurrent(t));
        }
        let mut acts = one_action(ClientAction::NoteCurrentUnlogged(to_string("Auto-perform commands:")));
        proof {
            reveal_strlit("Auto-perform commands:");
        }
        let ghost a0 = action_views(acts@);
        let mut rest = note_lines_as(crate::slash::perform_listing(self.session.auto_perform.as_str()),
            LineKind::CurrentUnlogged);
        let ghost a1 = action_views(rest@);
        acts.append(&mut rest);
        assert(action_views(acts@) =~= a0 + a1);
        acts
    }

    /// The ignore list (see `command_applied`, `ShowIgnores`).
    fn show_ignores(&self, now_ms: u128) -> (acts: Vec<ClientAction<String, Vec<String>>>)
        ensures
            command_applied(self@, CommandPlan::ShowIgnores, now_ms, self@, action_views(acts@)),
    {
        if self.ignore_list.len() == 0 {
            let t = to_string("Ignore list is empty");
            proof {
                reveal_strlit("Ignore list is empty");
            }
            return one_action(ClientAction::NoteCurrent(t));
        }
        let mut acts = one_action(ClientAction::NoteCurrent(to_string("Ignored users/masks:")));
        proof {
            reveal_strlit("Ignored users/masks:");
        }
        let ghost a0 = action_views(acts@);
        let mut rest = note_lines_as(ignore_lines_exec(&self.ignore_list), LineKind::Current);
        let ghost a1 = action_views(rest@);
        acts.append(&mut rest);
        assert(action_views(acts@) =~= a0 + a1);
        acts
    }

    /// Set or clear our away status (see `command_applied`, `Away`).
    fn set_away(&mut self, m: Option<String>, now_ms: u128) -> (acts: Vec<ClientAction<String, Vec<String>>>)
        ensures
            command_applied(old(self)@, CommandPlan::Away(opt_view(m)), now_ms, final(self)@, action_views(acts@)),
    {
        if !self.session.online {
            let t = to_string("Not connected - away status not changed");
            proof {
                reveal_strlit("Not connected - away status not changed");
            }
            return one_action(ClientAction::NoteServer(t));
        }
        let ghost pre = self@;
        let me = self.my_nick.clone();
        let _ = self.away_changed_everywhere(&me, &m);

        let note = match &m {
            Some(r) => concat_str("You are now marked as away: ", r.as_str()),
            None => to_string("You are no longer marked as away"),
        };
        proof {
            reveal_strlit("You are now marked as away: ");
            reveal_strlit("You are no longer marked as away");
        }
        let copy = match &m {
            Some(r) => Some(r.clone()),
            None => None,
        };
        let ghost mv = opt_view(m);
        self.session.away_status = m;
        self.session.auto_away_triggered = false;
        assert(self@.session == (SessionView { away_status: mv, auto_away_triggered: false, ..pre.session }));
        assert(self@ == (ClientView {
            windows: away_windows(pre.windows, pre.my_nick, mv),
            session: SessionView { away_status: mv, auto_away_triggered: false, ..pre.session },
            ..pre
        }));
        assert(opt_view(copy) == mv);
        assert(note@ == match mv {
            Some(r) => "You are now marked as away: "@ + r,
            None => "You are no longer marked as away"@,
        });
        let acts = two_actions(ClientAction::Send(IrcCommand::Away(copy)), ClientAction::NoteServer(note));
        assert(action_views(acts@) == seq![
                ActionView::Send(IrcCommand::Away(mv)),
                ActionView::NoteServer(match mv {
                    Some(r) => "You are now marked as away: "@ + r,
                    None => "You are no longer marked as away"@,
                }),
            ]);
        assert(pre.session.online);
        acts
    }

    /// Carry out the remaining command plans (see `command_applied`).
    fn apply_command(&mut self, plan: CommandPlan<String, Vec<String>>, now_ms: u128)
        -> (acts: Vec<ClientAction<String, Vec<String>>>)
        ensures
            command_applied(old(self)@, plan@, now_ms, final(self)@, action_views(acts@)),
    {
        match plan {
            CommandPlan::Message { target, text } => self.message_or_fail_exec(target, text),
            CommandPlan::Say { target, text } => self.message_or_fail_exec(target, text),
            CommandPlan::Service { service, text } => self.message_or_fail_exec(service, text),
            CommandPlan::Action { target, text } => {
                if self.session.reconnect.connected && self.session.online {
                    two_actions(ClientAction::SendAction(target.clone(), text.clone()), ClientAction::Deliver {
                        window: target,
                        sender: self.my_nick.clone(),
                        text,
                        action: true,
                        highlight: false,
                    })
                } else {
                    let t = to_string("Not connected - action not sent");
                    proof {
                        reveal_strlit("Not connected - action not sent");
                    }
                    one_action(ClientAction::NoteCurrent(t))
                }
            },
            CommandPlan::Notice { target, text } => {
                if self.session.reconnect.connected && self.session.online {
                    proof {
                        reveal_strlit("-> -");
                        reveal_strlit("- <credential command sent>");
                        reveal_strlit("- ");
                    }
                    let note = if service_message_contains_credentials(target.as_str(), text.as_str()) {
                        ClientAction::NoteCurrentUnlogged(concat3("-> -", target.as_str(), "- <credential command sent>"))
                    } else {
                        let mut t = concat3("-> -", target.as_str(), "- ");
                        push_str(&mut t, text.as_str());
                        ClientAction::NoteCurrent(t)
                    };
                    two_actions(ClientAction::SendNotice(target, text), note)
                } else {
                    let t = to_string("Not connected - notice not sent");
                    proof {
                        reveal_strlit("Not connected - notice not sent");
                    }
                    one_action(ClientAction::NoteCurrent(t))
                }
            },
            CommandPlan::Broadcast { text, action } => {
                if !self.session.reconnect.connected {
                    let t = if action {
                        to_string("Not connected - action not sent")
                    } else {
                        to_string("Not connected - message not sent")
                    };
                    proof {
                        reveal_strlit("Not connected - action not sent");
                        reveal_strlit("Not connected - message not sent");
                    }
                    one_action(ClientAction::NoteCurrent(t))
                } else if self.session.online {
                    self.broadcast(&text, action)
                } else {
                    no_actions()
                }
            },
            CommandPlan::Away(m) => self.set_away(m, now_ms),
            CommandPlan::Quit(r) => self.request_manual_disconnect(Some(r)),
            CommandPlan::Disconnect(r) => {
                let rs = self.session.reconnect;
                if rs.connected || rs.connecting || rs.connection_lost || self.session.online {
                    let ghost pre = self@;
                    let mut acts = self.request_manual_disconnect(r);
                    let ghost a = action_views(acts@);
                    acts.push(ClientAction::NoteServer(to_string("Disconnected from server")));
                    proof {
                        reveal_strlit("Disconnected from server");
                    }
                    assert(action_views(acts@) =~= a.push(ActionView::NoteServer("Disconnected from server"@)));
                    acts
                } else {
                    let t = to_string("Not connected");
                    proof {
                        reveal_strlit("Not connected");
                    }
                    one_action(ClientAction::NoteServer(t))
                }
            },
            CommandPlan::Reconnect => self.reconnect_after_close(),
            CommandPlan::History { target, limit } => one_action(ClientAction::RequestHistory { target, limit }),
            CommandPlan::Ctcp { target, command, payload } => {
                let mut done = concat3("[CTCP] Sent ", command.as_str(), " to ");
                push_str(&mut done, target.as_str());
                let failed = to_string("CTCP request not sent (not connected or message too long)");
                proof {
                    reveal_strlit("[CTCP] Sent ");
                    reveal_strlit(" to ");
                    reveal_strlit("CTCP request not sent (not connected or message too long)");
                }
                self.sent_or_exec(IrcCommand::Privmsg(target, payload), done, failed)
            },
            CommandPlan::CtcpVersion(t) => {
                let done = concat_str("[CTCP] Sent VERSION to ", t.as_str());
                let failed = to_string("CTCP VERSION not sent (not connected or message too long)");
                let payload = to_string("\u{1}VERSION\u{1}");
                proof {
                    reveal_strlit("[CTCP] Sent VERSION to ");
                    reveal_strlit("CTCP VERSION not sent (not connected or message too long)");
                    reveal_strlit("\u{1}VERSION\u{1}");
                }
                self.sent_or_exec(IrcCommand::Privmsg(t, payload), done, failed)
            },
            CommandPlan::CtcpPing(t) => {
                let done = concat_str("[CTCP] Sent PING to ", t.as_str());
                let failed = to_string("CTCP PING not sent (not connected or message too long)");
                let mut payload = to_string("\u{1}PING ");
                push_chars(&mut payload, &dec_chars_u128(now_ms));
                push_str(&mut payload, "\u{1}");
                proof {
                    reveal_strlit("[CTCP] Sent PING to ");
                    reveal_strlit("CTCP PING not sent (not connected or message too long)");
                    reveal_strlit("\u{1}PING ");
                    reveal_strlit("\u{1}");
                }
                self.sent_or_exec(IrcCommand::Privmsg(t, payload), done, failed)
            },
            CommandPlan::ListChannels(filter) => {
                if self.session.online {
                    self.session.channel_list_loading = true;
                    two_actions(ClientAction::Send(IrcCommand::List(filter)), ClientAction::ResetChannelList)
                } else {
                    self.session.channel_list_loading = false;
                    let t = to_string("Not connected - channel list was not refreshed");
                    proof {
                        reveal_strlit("Not connected - channel list was not refreshed");
                    }
                    one_action(ClientAction::NoteServer(t))
                }
            },
            CommandPlan::Kickban { channel, mask, kick } => {
                let ghost mv = mask@;
                let mut masks: Vec<String> = Vec::new();
                masks.push(mask);
                assert(views(masks@) =~= seq![mv]);
                let ban = ClientAction::Send(IrcCommand::Mode(channel.clone(), Some(to_string("+b")), masks));
                proof {
                    reveal_strlit("+b");
                    reveal_strlit("Ban set. /kickban with a hostmask cannot kick - use /kick <nick>.");
                }
                let ghost cv = channel@;
                let ghost kv = crate::slash::opt_pair_view(kick);
                let second = match kick {
                    Some((nick, reason)) => ClientAction::Send(IrcCommand::Kick(channel, nick, reason)),
                    None => ClientAction::NoteCurrent(
                        to_string("Ban set. /kickban with a hostmask cannot kick - use /kick <nick>."),
                    ),
                };
                assert(second@ == match kv {
                    Some((nick, reason)) => ActionView::Send(IrcCommand::Kick(cv, nick, reason)),
                    None => ActionView::NoteCurrent("Ban set. /kickban with a hostmask cannot kick - use /kick <nick>."@),
                });
                assert(ban@ == ActionView::Send(IrcCommand::Mode(cv, Some("+b"@), seq![mv])));
                let r = two_actions(ban, second);
                assert(action_views(r@) =~= seq![
                    ActionView::Send(IrcCommand::Mode(cv, Some("+b"@), seq![mv])),
                    match kv {
                        Some((nick, reason)) => ActionView::Send(IrcCommand::Kick(cv, nick, reason)),
                        None => ActionView::NoteCurrent("Ban set. /kickban with a hostmask cannot kick - use /kick <nick>."@),
                    },
                ]);
                r
            },
            CommandPlan::SetModes { channel, mode, nicks } => set_modes(&channel, &mode, &nicks),
            CommandPlan::Invite { nick, channel } => {
                let mut done = concat3("Inviting ", nick.as_str(), " to ");
                push_str(&mut done, channel.as_str());
                let failed = to_string("Invite not sent (not connected or command too long)");
                proof {
                    reveal_strlit("Inviting ");
                    reveal_strlit(" to ");
                    reveal_strlit("Invite not sent (not connected or command too long)");
                }
                self.sent_or_exec(IrcCommand::Invite(nick, channel), done, failed)
            },
            CommandPlan::Knock(c) => {
                let done = concat_str("Knocking on ", c.as_str());
                let raw = concat_str("KNOCK ", c.as_str());
                let failed = to_string("Knock request not sent (not connected or command too long)");
                proof {
                    reveal_strlit("Knocking on ");
                    reveal_strlit("KNOCK ");
                    reveal_strlit("Knock request not sent (not connected or command too long)");
                }
                self.sent_or_exec(IrcCommand::Raw(raw), done, failed)
            },
            CommandPlan::Server { host, port } => one_action(ClientAction::SwitchServer { host, port }),
            CommandPlan::ShowServer => one_action(ClientAction::ShowServer),
            CommandPlan::Clear => self.clear_current(now_ms),
            CommandPlan::Ignore(m) => {
                let added = add_ignore(&mut self.ignore_list, &mut self.ignore_keys, m.as_str(), &self.support);
                proof {
                    reveal_strlit("Now ignoring: ");
                    reveal_strlit("Already ignoring: ");
                }
                if added {
                    two_actions(ClientAction::NoteCurrent(concat_str("Now ignoring: ", m.as_str())), ClientAction::SaveSettings)
                } else {
                    one_action(ClientAction::NoteCurrent(concat_str("Already ignoring: ", m.as_str())))
                }
            },
            CommandPlan::Unignore(m) => {
                let removed = remove_ignore(&mut self.ignore_list, &mut self.ignore_keys, m.as_str(), &self.support);
                proof {
                    reveal_strlit("No longer ignoring: ");
                    reveal_strlit("Not in ignore list: ");
                }
                if removed {
                    two_actions(ClientAction::NoteCurrent(concat_str("No longer ignoring: ", m.as_str())),
                        ClientAction::SaveSettings)
                } else {
                    one_action(ClientAction::NoteCurrent(concat_str("Not in ignore list: ", m.as_str())))
                }
            },
            CommandPlan::ShowIgnores => self.show_ignores(now_ms),
            CommandPlan::Lastlog(p) => self.lastlog_current(p, now_ms),
            CommandPlan::ShowPerform => self.show_perform(now_ms),
            CommandPlan::ClearPerform => {
                self.session.auto_perform = String::new();
                proof {
                    reveal_strlit("Auto-perform commands cleared.");
                }
                two_actions(ClientAction::SaveSettings, ClientAction::NoteCurrent(to_string("Auto-perform commands cleared.")))
            },
            CommandPlan::AddPerform(c) => {
                add_perform(&mut self.session.auto_perform, c.as_str());
                proof {
                    reveal_strlit("Added command to auto-perform.");
                }
                two_actions(ClientAction::SaveSettings,
                    ClientAction::NoteCurrentUnlogged(to_string("Added command to auto-perform.")))
            },
            CommandPlan::Settings => one_action(ClientAction::OpenSettings),
            CommandPlan::Help => note_lines_as(help_lines(), LineKind::ServerUnlogged),
            _ => no_actions(),
        }
    }
}


/// A JOIN and a line for each channel joined on connect.
pub open spec fn auto_join_actions(ts: Seq<Seq<char>>) -> Seq<ActionView>
    decreases ts.len(),
{
    if ts.len() == 0 {
        Seq::empty()
    } else {
        auto_join_actions(ts.drop_last()) + seq![
            ActionView::Send(IrcCommand::Join(ts.last(), None)),
            ActionView::NoteServer("Auto-joining "@ + ts.last()),
        ]
    }
}

/// Registration completed (RPL_WELCOME): we are connected under the nick
/// the server names, retries and intent reset; the server's greeting is
/// shown, invisibility is asked for if set, the auto-join channels are
/// joined, the auto-perform commands queued, and a lag probe sent.
pub open spec fn welcome_applied(old: ClientView, ps: Seq<Seq<char>>, new: ClientView, acts: Seq<ActionView>) -> bool {
    let nick = if ps.len() > 0 { ps[0] } else { old.my_nick };
    let cmds = spec_auto_perform_commands(old.session.auto_perform);
    &&& new == (ClientView {
        my_nick: nick,
        session: SessionView {
            reconnect: ReconnectState {
                connected: true,
                connecting: false,
                connection_lost: false,
                reconnect_attempts: 0,
                ..old.session.reconnect
            },
            intent: ConnectionIntent::Idle,
            nick_retry_attempts: 0,
            ..old.session
        },
        ..old
    })
    &&& acts == seq![ActionView::NoteServer(if ps.len() > 1 { ps[1] } else { "Welcome!"@ })]
        + (if old.session.set_invisible {
            seq![
                ActionView::Send(IrcCommand::Mode(nick, Some("+i"@), Seq::empty())),
                ActionView::NoteServer("Setting user mode +i (invisible)"@),
            ]
        } else {
            Seq::empty()
        })
        + auto_join_actions(spec_auto_join_targets(old.session.auto_join, old.support.channel_types@))
        + (if cmds.len() > 0 {
            seq![ActionView::RunPerform(cmds), ActionView::NoteServer("Running auto-perform commands..."@)]
        } else {
            Seq::empty()
        })
        + seq![ActionView::StartLagCheck, ActionView::Send(IrcCommand::Ping("LAG"@))]
}

/// Every window's channel under a new case mapping.
pub open spec fn recased_windows(ws: Seq<(Seq<char>, ChannelView)>, m: CaseMapping) -> Seq<(Seq<char>, ChannelView)> {
    ws.map_values(|w: (Seq<char>, ChannelView)| (w.0, ChannelView { case_mapping: m, ..w.1 }))
}

/// RPL_ISUPPORT: the support takes the tokens (see
/// `NetworkSupport::apply_isupport_tokens`); when the case mapping changes,
/// every channel, the ignore keys and the highlight keys follow it.
pub open spec fn isupport_applied(old: ClientView, ps: Seq<Seq<char>>, new: ClientView, acts: Seq<ActionView>) -> bool {
    let s = new.support;
    &&& s.state() == apply_tokens(old.support.state(), ps, 1)
    &&& s.untouched_by_tokens(&old.support)
    &&& acts == Seq::<ActionView>::empty()
    &&& if s.case_mapping == old.support.case_mapping {
        new == (ClientView { support: s, ..old })
    } else {
        &&& new == (ClientView {
            support: s,
            windows: recased_windows(old.windows, s.case_mapping),
            ignore_keys: new.ignore_keys,
            highlight_keys: spec_highlight_keys(&s, old.session.highlight_words),
            ..old
        })
        &&& new.ignore_keys.len() == old.ignore_list.len()
        &&& forall|i: int| 0 <= i < old.ignore_list.len() ==> #[trigger] new.ignore_keys[i]
            == spec_network_canonicalize(s.case_mapping, s.channel_types@, old.ignore_list[i])
    }
}

/// Registration cannot go on: the reason is shown and the connection
/// dropped as by a manual disconnect.
pub open spec fn registration_failed(old: ClientView, t: Seq<char>, new: ClientView, acts: Seq<ActionView>) -> bool {
    new == manually_disconnected(old)
        && acts == seq![ActionView::NoteServer(t)] + disconnect_actions(old, Some("Registration failed"@))
}

/// How the numerics of registration, the MOTD and the channel list change
/// the state: welcome (001), ISUPPORT (005), the channel list (321-323),
/// the MOTD (372, 375, 376), a nick in use (433) and the other
/// registration errors (431, 432, 436, 464, 465).
pub open spec fn session_numeric_applied(old: ClientView, num: u16, ps: Seq<Seq<char>>, new: ClientView,
    acts: Seq<ActionView>) -> bool {
    if num == 1 {
        welcome_applied(old, ps, new, acts)
    } else if num == 5 {
        isupport_applied(old, ps, new, acts)
    } else if num == 321 {
        new == (ClientView { session: SessionView { channel_list_loading: true, ..old.session }, ..old })
            && acts == seq![ActionView::ResetChannelList]
    } else if num == 322 {
        new == old && acts == match spec_parse_list_reply(ps) {
            Some((name, users, topic)) => seq![ActionView::ChannelListEntry { name: name, users: users, topic: topic }],
            None => Seq::empty(),
        }
    } else if num == 323 {
        new == (ClientView { session: SessionView { channel_list_loading: false, ..old.session }, ..old })
            && acts == Seq::<ActionView>::empty()
    } else if num == 372 || num == 375 || num == 376 {
        new == old && acts == if ps.len() > 0 { seq![ActionView::NoteServer(ps.last())] } else { Seq::empty() }
    } else if num == 433 {
        let (reply, attempts) = spec_nick_in_use(old.session.reconnect.connected, old.session.nick_retry_attempts,
            old.my_nick, ps);
        match reply {
            RegistrationReplyView::Report(t) => new == old && acts == seq![ActionView::NoteServer(t)],
            RegistrationReplyView::Fail(t) => registration_failed(old, t, new, acts),
            RegistrationReplyView::RetryNick(n) => {
                &&& new == (ClientView {
                    my_nick: n,
                    session: SessionView { nick_retry_attempts: attempts as u32, ..old.session },
                    ..old
                })
                &&& acts == (if old.session.online { seq![ActionView::Send(IrcCommand::Nick(n))] } else { Seq::empty() })
                    + seq![ActionView::NoteServer("Nickname in use, trying alternative..."@)]
            },
        }
    } else {
        match spec_registration_error(num, old.session.reconnect.connected, ps) {
            RegistrationReplyView::Report(t) => new == old && acts == seq![ActionView::NoteServer(t)],
            RegistrationReplyView::Fail(t) => registration_failed(old, t, new, acts),
            RegistrationReplyView::RetryNick(_) => new == old && acts == Seq::<ActionView>::empty(),
        }
    }
}

/// A JOIN and a line for each channel joined on connect (see `auto_join_actions`).
fn auto_join_exec(targets: &Vec<String>) -> (r: Vec<ClientAction<String, Vec<String>>>)
    ensures
        action_views(r@) == auto_join_actions(views(targets@)),
{
    let ghost ts = views(targets@);
    let mut out: Vec<ClientAction<String, Vec<String>>> = Vec::new();
    let mut i: usize = 0;
    while i < targets.len()
        invariant
            i <= targets@.len(),
            ts == views(targets@),
            action_views(out@) == auto_join_actions(ts.take(i as int)),
        decreases targets@.len() - i,
    {
        let ghost before = action_views(out@);
        assert(ts.take(i + 1).drop_last() =~= ts.take(i as int));
        assert(ts[i as int] == targets@[i as int]@);
        let t = targets[i].clone();
        out.push(ClientAction::Send(IrcCommand::Join(t.clone(), None)));
        out.push(ClientAction::NoteServer(concat_str("Auto-joining ", t.as_str())));
        proof {
            reveal_strlit("Auto-joining ");
        }
        assert(action_views(out@) =~= before + seq![out@[out@.len() - 2]@, out@[out@.len() - 1]@]);
        i += 1;
    }
    assert(ts.take(i as int) =~= ts);
    out
}

impl ClientState {
    /// Every window's channel under case mapping `m`.
    fn recase_windows(&mut self, m: CaseMapping)
        ensures
            final(self)@ == (ClientView { windows: recased_windows(old(self)@.windows, m), ..old(self)@ }),
    {
        let ghost pre = self@;
        let n = self.windows.len();
        let mut i: usize = 0;
        while i < n
            invariant
                n == pre.windows.len(),
                i <= n,
                self@.windows.len() == n,
                forall|j: int| 0 <= j < i ==> #[trigger] self@.windows[j]
                    == (pre.windows[j].0, ChannelView { case_mapping: m, ..pre.windows[j].1 }),
                forall|j: int| i <= j < n ==> #[trigger] self@.windows[j] == pre.windows[j],
                self@ == (ClientView { windows: self@.windows, ..pre }),
            decreases n - i,
        {
            let ghost before = *self;
            let (name, mut ch) = self.take_window(i);
            ch.set_case_mapping(m);
            self.put_back(i, (name, ch));
            proof {
                lemma_view_after_put_back(before, *self, i as int, self.windows@[i as int]);
            }
            i += 1;
        }
        assert(self@.windows =~= recased_windows(pre.windows, m));
    }

    /// Registration cannot go on (see `registration_failed`).
    fn fail_registration(&mut self, t: String) -> (acts: Vec<ClientAction<String, Vec<String>>>)
        ensures
            registration_failed(old(self)@, t@, final(self)@, action_views(acts@)),
    {
        let mut acts = one_action(ClientAction::NoteServer(t));
        let ghost a = action_views(acts@);
        let reason = to_string("Registration failed");
        proof {
            reveal_strlit("Registration failed");
        }
        let mut more = self.request_manual_disconnect(Some(reason));
        let ghost b = action_views(more@);
        acts.append(&mut more);
        assert(action_views(acts@) =~= a + b);
        acts
    }

    /// RPL_WELCOME (see `welcome_applied`).
    fn welcome(&mut self, params: &[String]) -> (acts: Vec<ClientAction<String, Vec<String>>>)
        ensures
            welcome_applied(old(self)@, views(params@), final(self)@, action_views(acts@)),
    {
        let ghost pre = self@;
        let ghost ps = views(params@);
        let nick = if params.len() > 0 {
            assert(ps[0] == params@[0]@);
            params[0].clone()
        } else {
            self.my_nick.clone()
        };
        let greet = if params.len() > 1 {
            assert(ps[1] == params@[1]@);
            params[1].clone()
        } else {
            to_string("Welcome!")
        };
        proof {
            reveal_strlit("Welcome!");
            reveal_strlit("+i");
            reveal_strlit("Setting user mode +i (invisible)");
            reveal_strlit("Running auto-perform commands...");
            reveal_strlit("LAG");
        }
        let mut acts = one_action(ClientAction::NoteServer(greet));
        let ghost a0 = action_views(acts@);
        let mut inv: Vec<ClientAction<String, Vec<String>>> = Vec::new();
        if self.session.set_invisible {
            let empty: Vec<String> = Vec::new();
            assert(views(empty@) =~= Seq::<Seq<char>>::empty());
            inv = two_actions(ClientAction::Send(IrcCommand::Mode(nick.clone(), Some(to_string("+i")), empty)),
                ClientAction::NoteServer(to_string("Setting user mode +i (invisible)")));
        } else {
            assert(action_views(inv@) =~= Seq::<ActionView>::empty());
        }
        let ghost a1 = action_views(inv@);
        acts.append(&mut inv);
        let targets = crate::slash::auto_join_targets(self.session.auto_join.as_str(), &self.support);
        let mut joins = auto_join_exec(&targets);
        let ghost a2 = action_views(joins@);
        acts.append(&mut joins);
        let cmds = crate::slash::auto_perform_commands(self.session.auto_perform.as_str());
        let mut perform: Vec<ClientAction<String, Vec<String>>> = Vec::new();
        if cmds.len() > 0 {
            perform = two_actions(ClientAction::RunPerform(cmds),
                ClientAction::NoteServer(to_string("Running auto-perform commands...")));
        } else {
            assert(action_views(perform@) =~= Seq::<ActionView>::empty());
        }
        let ghost a3 = action_views(perform@);
        acts.append(&mut perform);
        let mut lag = two_actions(ClientAction::StartLagCheck, ClientAction::Send(IrcCommand::Ping(to_string("LAG"))));
        let ghost a4 = action_views(lag@);
        acts.append(&mut lag);
        assert(action_views(acts@) =~= a0 + a1 + a2 + a3 + a4);
        self.my_nick = nick;
        self.session.reconnect.connected = true;
        self.session.reconnect.connecting = false;
        self.session.reconnect.connection_lost = false;
        self.session.reconnect.reconnect_attempts = 0;
        self.session.intent = ConnectionIntent::Idle;
        self.session.nick_retry_attempts = 0;
        acts
    }

    /// RPL_ISUPPORT (see `isupport_applied`).
    fn isupport(&mut self, params: &[String]) -> (acts: Vec<ClientAction<String, Vec<String>>>)
        ensures
            isupport_applied(old(self)@, views(params@), final(self)@, action_views(acts@)),
    {
        let ghost pre = self@;
        assert(params@.map_values(|p: String| p@) =~= views(params@));
        let changed = self.support.apply_isupport_tokens(params);
        if changed {
            let m = self.support.case_mapping;
            self.recase_windows(m);
            self.ignore_keys = crate::session::ignore_keys(&self.support, self.ignore_list.as_slice());
            self.highlight_keys = crate::session::highlight_keys(&self.support, self.session.highlight_words.as_str());
            assert(forall|i: int| 0 <= i < pre.ignore_list.len() ==> #[trigger] pre.ignore_list[i]
                == self.ignore_list@[i]@);
        }
        no_actions()
    }

    /// The numerics of registration, the MOTD and the channel list (see
    /// `session_numeric_applied`).
    fn session_numeric(&mut self, num: u16, params: &[String]) -> (acts: Vec<ClientAction<String, Vec<String>>>)
        requires
            is_session_numeric(num),
        ensures
            session_numeric_applied(old(self)@, num, views(params@), final(self)@, action_views(acts@)),
    {
        let ghost ps = views(params@);
        if num == 1 {
            self.welcome(params)
        } else if num == 5 {
            self.isupport(params)
        } else if num == 321 {
            self.session.channel_list_loading = true;
            one_action(ClientAction::ResetChannelList)
        } else if num == 322 {
            match parse_list_reply(params) {
                Some((name, users, topic)) => one_action(ClientAction::ChannelListEntry { name, users, topic }),
                None => no_actions(),
            }
        } else if num == 323 {
            self.session.channel_list_loading = false;
            no_actions()
        } else if num == 372 || num == 375 || num == 376 {
            if params.len() > 0 {
                assert(ps.last() == params@[params.len() - 1]@);
                one_action(ClientAction::NoteServer(params[params.len() - 1].clone()))
            } else {
                no_actions()
            }
        } else if num == 433 {
            let (reply, attempts) = nick_in_use(self.session.reconnect.connected, self.session.nick_retry_attempts,
                self.my_nick.as_str(), params);
            match reply {
                RegistrationReply::Report(t) => one_action(ClientAction::NoteServer(t)),
                RegistrationReply::Fail(t) => self.fail_registration(t),
                RegistrationReply::RetryNick(n) => {
                    let mut acts: Vec<ClientAction<String, Vec<String>>> = Vec::new();
                    if self.session.online {
                        acts.push(ClientAction::Send(IrcCommand::Nick(n.clone())));
                    }
                    acts.push(ClientAction::NoteServer(to_string("Nickname in use, trying alternative...")));
                    proof {
                        reveal_strlit("Nickname in use, trying alternative...");
                    }
                    let ghost nv = n@;
                    self.my_nick = n;
                    self.session.nick_retry_attempts = attempts;
                    assert(action_views(acts@) =~= (if old(self)@.session.online {
                        seq![ActionView::Send(IrcCommand::Nick(nv))]
                    } else {
                        Seq::empty()
                    }) + seq![ActionView::NoteServer("Nickname in use, trying alternative..."@)]);
                    acts
                },
            }
        } else {
            match registration_error(num, self.session.reconnect.connected, params) {
                RegistrationReply::Report(t) => one_action(ClientAction::NoteServer(t)),
                RegistrationReply::Fail(t) => self.fail_registration(t),
                RegistrationReply::RetryNick(_) => no_actions(),
            }
        }
    }
}


/// Query windows opened on their own are capped at this many.
pub const MAX_QUERY_WINDOWS: usize = 200;

/// How many of the windows are queries (not channels).
pub open spec fn query_count(ws: Seq<(Seq<char>, ChannelView)>, types: Seq<char>) -> nat
    decreases ws.len(),
{
    if ws.len() == 0 {
        0
    } else {
        query_count(ws.drop_last(), types) + if spec_is_channel(types, ws.last().0) { 0nat } else { 1nat }
    }
}

/// Where a line for window `name` goes: its open window, else a new one
/// (with the network's case mapping) unless it would be a query window
/// past the cap, in which case it goes to the server window (`None`).
pub open spec fn window_opened(old: ClientView, name: Seq<char>, new: ClientView, r: Option<int>) -> bool {
    match window_of(old, name) {
        Some(i) => new == old && r == Some(i),
        None => if !spec_is_channel(old.support.channel_types@, name)
            && query_count(old.windows, old.support.channel_types@) >= MAX_QUERY_WINDOWS {
            new == old && r.is_none()
        } else {
            &&& new == (ClientView {
                windows: old.windows.push((name, ChannelView { case_mapping: old.support.case_mapping, ..empty_channel() })),
                ..old
            })
            &&& r == Some(old.windows.len() as int)
        },
    }
}

impl ClientState {
    fn count_queries(&self) -> (r: usize)
        ensures
            r as nat == query_count(self@.windows, self.support.channel_types@),
    {
        let ghost ws = self@.windows;
        let ghost types = self.support.channel_types@;
        let mut n: usize = 0;
        let mut i: usize = 0;
        while i < self.windows.len()
            invariant
                i <= self.windows@.len(),
                ws == self@.windows,
                types == self.support.channel_types@,
                n as nat == query_count(ws.take(i as int), types),
                n <= i,
            decreases self.windows@.len() - i,
        {
            assert(ws.take(i + 1).drop_last() =~= ws.take(i as int));
            assert(ws[i as int].0 == self.windows@[i as int].0@);
            if !self.support.is_channel(self.windows[i].0.as_str()) {
                n = n + 1;
            }
            i += 1;
        }
        assert(ws.take(i as int) =~= ws);
        n
    }

    /// The window a line for `name` goes to, opened if needed (see `window_opened`).
    pub fn open_window(&mut self, name: &str) -> (r: Option<usize>)
        ensures
            window_opened(old(self)@, name@, final(self)@, match r { Some(i) => Some(i as int), None => None }),
    {
        let ghost pre = self@;
        let found = self.find_window(name);
        if let Some(i) = found {
            return Some(i);
        }
        if !self.support.is_channel(name) && self.count_queries() >= MAX_QUERY_WINDOWS {
            return None;
        }
        let mut ch = Channel::new();
        ch.set_case_mapping(self.support.case_mapping);
        let n = self.windows.len();
        self.windows.push((to_string(name), ch));
        assert(self@.windows =~= pre.windows.push((name@, ChannelView {
            case_mapping: pre.support.case_mapping,
            ..empty_channel()
        })));
        Some(n)
    }

    /// The window a line for the current window goes to: the current one,
    /// opened if needed, or the server window (`None`) when none is current.
    pub fn open_current(&mut self) -> (r: Option<usize>)
        ensures
            match old(self)@.current {
                Some(c) => window_opened(old(self)@, c, final(self)@, match r { Some(i) => Some(i as int), None => None }),
                None => final(self)@ == old(self)@ && r.is_none(),
            },
    {
        match self.current.clone() {
            Some(c) => self.open_window(c.as_str()),
            None => None,
        }
    }
}

} // verus!

//! The slash commands of the input line: what `/join`, `/part`, `/msg` and
//! the rest mean, decided from the typed text and the client's state. The
//! caller performs the plan (sends the IRC command, updates windows).

use vstd::prelude::*;

use crate::channel::opt_view;
use crate::commands::{spec_mode_command_args, spec_monitor_args, spec_parse_server_arg, spec_parse_server_port, split_first_space};
use crate::helpers::spec_nick_to_mask;
use crate::network::{parse_usize, spec_is_channel, spec_network_canonicalize};
use crate::numfmt::dec;
use crate::caps::parse_usize_exec;
use crate::casemap::{spec_canonicalize, CaseMapping};
use crate::commands::{
    command_line_contains_credentials, lemma_split_on_len, mode_command_args, monitor_args, parse_server_arg,
    parse_server_port, spec_command_line_contains_credentials, split_char, split_on,
};
use crate::formatting::occurs_at;
use crate::helpers::nick_to_mask;
use crate::message::ChatMessage;
use crate::network::NetworkSupport;
use crate::numfmt::push_dec;
use crate::session::normalize_channel_name;
use crate::text::{
    chars_eq, chars_of, contains_char, eq_ignore_ascii_case, find_char, has_char, is_ascii_digit, is_digit,
    is_whitespace, lemma_find_from, push_char, push_str, range_eq_ignore_ascii_case, skip_ws, split_whitespace,
    starts_with_at, string_from_range, to_lowercase, to_string, to_uppercase, unicode_lowercase, trim, trim_start, trim_string, unicode_uppercase, views, words,
};

verus! {

/// An IRC command the client sends. `S` is the string type and `L` a list
/// of strings (`String`/`Vec<String>` in code, their views in contracts).
#[derive(Debug, Clone, PartialEq, Eq)]
pub enum IrcCommand<S, L> {
    /// Channel and key.
    Join(S, Option<S>),
    /// Channel and reason.
    Part(S, Option<S>),
    Nick(S),
    Topic(S, Option<S>),
    Raw(S),
    Who(S),
    Whois(S),
    Whowas(S),
    Names(Option<S>),
    Kick(S, S, Option<S>),
    /// Target, mode string, parameters.
    Mode(S, Option<S>, L),
    Motd(Option<S>),
    Time(Option<S>),
    Admin(Option<S>),
    Info(Option<S>),
    Lusers,
    Links(Option<S>),
    Stats(S),
    Trace(Option<S>),
    Userhost(S),
    Ison(S),
    /// Subcommand and targets.
    Monitor(S, Option<S>),
    Wallops(S),
    Version(Option<S>),
    /// Target and text, sent as one line.
    Privmsg(S, S),
    Away(Option<S>),
    Quit(Option<S>),
    List(Option<S>),
    /// Nick and channel.
    Invite(S, S),
    Ping(S),
}

pub open spec fn opt_pair_view(o: Option<(String, Option<String>)>) -> Option<(Seq<char>, Option<Seq<char>>)> {
    match o {
        Some((a, b)) => Some((a@, opt_view(b))),
        None => None,
    }
}

impl View for IrcCommand<String, Vec<String>> {
    type V = IrcCommand<Seq<char>, Seq<Seq<char>>>;

    open spec fn view(&self) -> IrcCommand<Seq<char>, Seq<Seq<char>>> {
        match self {
            IrcCommand::Join(a, b) => IrcCommand::Join(a@, opt_view(*b)),
            IrcCommand::Part(a, b) => IrcCommand::Part(a@, opt_view(*b)),
            IrcCommand::Nick(a) => IrcCommand::Nick(a@),
            IrcCommand::Topic(a, b) => IrcCommand::Topic(a@, opt_view(*b)),
            IrcCommand::Raw(a) => IrcCommand::Raw(a@),
            IrcCommand::Who(a) => IrcCommand::Who(a@),
            IrcCommand::Whois(a) => IrcCommand::Whois(a@),
            IrcCommand::Whowas(a) => IrcCommand::Whowas(a@),
            IrcCommand::Names(a) => IrcCommand::Names(opt_view(*a)),
            IrcCommand::Kick(a, b, c) => IrcCommand::Kick(a@, b@, opt_view(*c)),
            IrcCommand::Mode(a, b, c) => IrcCommand::Mode(a@, opt_view(*b), views(c@)),
            IrcCommand::Motd(a) => IrcCommand::Motd(opt_view(*a)),
            IrcCommand::Time(a) => IrcCommand::Time(opt_view(*a)),
            IrcCommand::Admin(a) => IrcCommand::Admin(opt_view(*a)),
            IrcCommand::Info(a) => IrcCommand::Info(opt_view(*a)),
            IrcCommand::Lusers => IrcCommand::Lusers,
            IrcCommand::Links(a) => IrcCommand::Links(opt_view(*a)),
            IrcCommand::Stats(a) => IrcCommand::Stats(a@),
            IrcCommand::Trace(a) => IrcCommand::Trace(opt_view(*a)),
            IrcCommand::Userhost(a) => IrcCommand::Userhost(a@),
            IrcCommand::Ison(a) => IrcCommand::Ison(a@),
            IrcCommand::Monitor(a, b) => IrcCommand::Monitor(a@, opt_view(*b)),
            IrcCommand::Wallops(a) => IrcCommand::Wallops(a@),
            IrcCommand::Version(a) => IrcCommand::Version(opt_view(*a)),
            IrcCommand::Privmsg(a, b) => IrcCommand::Privmsg(a@, b@),
            IrcCommand::Away(a) => IrcCommand::Away(opt_view(*a)),
            IrcCommand::Quit(a) => IrcCommand::Quit(opt_view(*a)),
            IrcCommand::List(a) => IrcCommand::List(opt_view(*a)),
            IrcCommand::Invite(a, b) => IrcCommand::Invite(a@, b@),
            IrcCommand::Ping(a) => IrcCommand::Ping(a@),
        }
    }
}

/// What a slash command asks of the client.
#[derive(Debug, Clone, PartialEq, Eq)]
pub enum CommandPlan<S, L> {
    /// System lines for the current window (usage text, echoes).
    Show(L),
    /// System lines for the server window.
    ShowInServer(L),
    /// Send one command; the caller reports a failure to send.
    Send(IrcCommand<S, L>),
    /// Join, remembering the key for the channel once sent.
    Join { channel: S, key: Option<S> },
    /// Leave; when it cannot be sent the window is closed locally.
    Part { channel: S, reason: Option<S> },
    /// `/msg`: the echo hides credential commands sent to services.
    Message { target: S, text: S },
    /// Open a query window, and send `text` there if given.
    Query { target: S, text: Option<S> },
    /// A CTCP ACTION (`/me`, `/slap`, `/describe`).
    Action { target: S, text: S },
    /// `/say`: a plain message to the current window.
    Say { target: S, text: S },
    /// A notice, confirmed in the current window.
    Notice { target: S, text: S },
    /// The same message, or action, to every joined channel.
    Broadcast { text: S, action: bool },
    /// A message to a network service, shown in its query window.
    Service { service: S, text: S },
    /// Set (`Some`) or clear (`None`) the away status.
    Away(Option<S>),
    /// Disconnect on purpose with this QUIT reason.
    Quit(S),
    /// Fetch the latest server history of a channel.
    History { target: S, limit: Option<usize> },
    /// A CTCP request: target, upper-case command, and the framed payload.
    Ctcp { target: S, command: S, payload: S },
    CtcpVersion(S),
    /// A CTCP PING carrying the current time.
    CtcpPing(S),
    /// Refresh the channel list with this LIST filter.
    ListChannels(Option<S>),
    /// Ban `mask`, then kick the nick with the reason if one is given.
    Kickban { channel: S, mask: S, kick: Option<(S, Option<S>)> },
    /// One MODE `mode` per nick.
    SetModes { channel: S, mode: S, nicks: L },
    Invite { nick: S, channel: S },
    /// Part and rejoin (with the stored key).
    Cycle(S),
    Knock(S),
    /// Switch to this server (port kept when `None`).
    Server { host: S, port: Option<S> },
    ShowServer,
    Disconnect(Option<S>),
    Reconnect,
    Clear,
    Close,
    Ignore(S),
    ShowIgnores,
    Unignore(S),
    Lastlog(S),
    ShowPerform,
    ClearPerform,
    AddPerform(S),
    Settings,
    Help,
    Nothing,
}

impl View for CommandPlan<String, Vec<String>> {
    type V = CommandPlan<Seq<char>, Seq<Seq<char>>>;

    open spec fn view(&self) -> CommandPlan<Seq<char>, Seq<Seq<char>>> {
        match self {
            CommandPlan::Show(l) => CommandPlan::Show(views(l@)),
            CommandPlan::ShowInServer(l) => CommandPlan::ShowInServer(views(l@)),
            CommandPlan::Send(c) => CommandPlan::Send(c@),
            CommandPlan::Join { channel, key } => CommandPlan::Join { channel: channel@, key: opt_view(*key) },
            CommandPlan::Part { channel, reason } => CommandPlan::Part { channel: channel@, reason: opt_view(*reason) },
            CommandPlan::Message { target, text } => CommandPlan::Message { target: target@, text: text@ },
            CommandPlan::Query { target, text } => CommandPlan::Query { target: target@, text: opt_view(*text) },
            CommandPlan::Action { target, text } => CommandPlan::Action { target: target@, text: text@ },
            CommandPlan::Say { target, text } => CommandPlan::Say { target: target@, text: text@ },
            CommandPlan::Notice { target, text } => CommandPlan::Notice { target: target@, text: text@ },
            CommandPlan::Broadcast { text, action } => CommandPlan::Broadcast { text: text@, action: *action },
            CommandPlan::Service { service, text } => CommandPlan::Service { service: service@, text: text@ },
            CommandPlan::Away(a) => CommandPlan::Away(opt_view(*a)),
            CommandPlan::Quit(a) => CommandPlan::Quit(a@),
            CommandPlan::History { target, limit } => CommandPlan::History { target: target@, limit: *limit },
            CommandPlan::Ctcp { target, command, payload } => CommandPlan::Ctcp {
                target: target@,
                command: command@,
                payload: payload@,
            },
            CommandPlan::CtcpVersion(a) => CommandPlan::CtcpVersion(a@),
            CommandPlan::CtcpPing(a) => CommandPlan::CtcpPing(a@),
            CommandPlan::ListChannels(a) => CommandPlan::ListChannels(opt_view(*a)),
            CommandPlan::Kickban { channel, mask, kick } => CommandPlan::Kickban {
                channel: channel@,
                mask: mask@,
                kick: opt_pair_view(*kick),
            },
            CommandPlan::SetModes { channel, mode, nicks } => CommandPlan::SetModes {
                channel: channel@,
                mode: mode@,
                nicks: views(nicks@),
            },
            CommandPlan::Invite { nick, channel } => CommandPlan::Invite { nick: nick@, channel: channel@ },
            CommandPlan::Cycle(a) => CommandPlan::Cycle(a@),
            CommandPlan::Knock(a) => CommandPlan::Knock(a@),
            CommandPlan::Server { host, port } => CommandPlan::Server { host: host@, port: opt_view(*port) },
            CommandPlan::ShowServer => CommandPlan::ShowServer,
            CommandPlan::Disconnect(a) => CommandPlan::Disconnect(opt_view(*a)),
            CommandPlan::Reconnect => CommandPlan::Reconnect,
            CommandPlan::Clear => CommandPlan::Clear,
            CommandPlan::Close => CommandPlan::Close,
            CommandPlan::Ignore(a) => CommandPlan::Ignore(a@),
            CommandPlan::ShowIgnores => CommandPlan::ShowIgnores,
            CommandPlan::Unignore(a) => CommandPlan::Unignore(a@),
            CommandPlan::Lastlog(a) => CommandPlan::Lastlog(a@),
            CommandPlan::ShowPerform => CommandPlan::ShowPerform,
            CommandPlan::ClearPerform => CommandPlan::ClearPerform,
            CommandPlan::AddPerform(a) => CommandPlan::AddPerform(a@),
            CommandPlan::Settings => CommandPlan::Settings,
            CommandPlan::Help => CommandPlan::Help,
            CommandPlan::Nothing => CommandPlan::Nothing,
        }
    }
}

/// Split `s` at its first space (`splitn(2, ' ')`).
pub fn split_space(s: &str) -> (r: (String, Option<String>))
    ensures
        (r.0@, opt_view(r.1)) == split_first_space(s@),
{
    let v = chars_of(s);
    proof {
        lemma_find_from(v@, ' ', 0);
        assert(v@.subrange(0, v@.len() as int) =~= v@);
    }
    match find_char(&v, ' ', 0) {
        Some(k) => (string_from_range(&v, 0, k), Some(string_from_range(&v, k + 1, v.len()))),
        None => (string_from_range(&v, 0, v.len()), None),
    }
}

/// Whether `v` spells `w`.
fn is_word(v: &Vec<char>, w: &str) -> (r: bool)
    ensures
        r == (v@ == w@),
{
    chars_eq(v, &chars_of(w))
}

/// The command a (upper-case) command name selects.
#[derive(Clone, Copy, PartialEq, Eq, Structural, Debug)]
pub enum CommandKind {
    Join,
    Part,
    Msg,
    Query,
    Me,
    Slap,
    Nick,
    Topic,
    Quit,
    Away,
    Back,
    NickServ,
    ChanServ,
    MemoServ,
    HostServ,
    OperServ,
    BotServ,
    Raw,
    History,
    Ctcp,
    Version,
    Ping,
    Clear,
    Who,
    Whois,
    Whowas,
    Names,
    List,
    Kick,
    Ban,
    Unban,
    Kickban,
    Op,
    Deop,
    Voice,
    Devoice,
    Halfop,
    Dehalfop,
    Mode,
    Umode,
    Silence,
    Accept,
    Notice,
    Onotice,
    Amsg,
    Ame,
    Say,
    Describe,
    Invite,
    Cycle,
    Knock,
    Close,
    Motd,
    Time,
    Admin,
    Info,
    Lusers,
    Links,
    Stats,
    Trace,
    Userhost,
    Ison,
    Monitor,
    Wallops,
    Server,
    Disconnect,
    Reconnect,
    Echo,
    Ignore,
    Unignore,
    Lastlog,
    Sversion,
    Perform,
    Settings,
    Help,
    Unknown,
}

/// The command named by `c`, with its aliases (`/j`, `/leave`, `/q`, ...).
pub open spec fn spec_command_kind(c: Seq<char>) -> CommandKind {
    if c == "JOIN"@ || c == "J"@ {
        CommandKind::Join
    } else if c == "PART"@ || c == "LEAVE"@ {
        CommandKind::Part
    } else if c == "MSG"@ || c == "PRIVMSG"@ {
        CommandKind::Msg
    } else if c == "QUERY"@ || c == "Q"@ {
        CommandKind::Query
    } else if c == "ME"@ {
        CommandKind::Me
    } else if c == "SLAP"@ {
        CommandKind::Slap
    } else if c == "NICK"@ {
        CommandKind::Nick
    } else if c == "TOPIC"@ {
        CommandKind::Topic
    } else if c == "QUIT"@ {
        CommandKind::Quit
    } else if c == "AWAY"@ {
        CommandKind::Away
    } else if c == "BACK"@ {
        CommandKind::Back
    } else if c == "NS"@ || c == "NICKSERV"@ {
        CommandKind::NickServ
    } else if c == "CS"@ || c == "CHANSERV"@ {
        CommandKind::ChanServ
    } else if c == "MS"@ || c == "MEMOSERV"@ {
        CommandKind::MemoServ
    } else if c == "HS"@ || c == "HOSTSERV"@ {
        CommandKind::HostServ
    } else if c == "OS"@ || c == "OPERSERV"@ {
        CommandKind::OperServ
    } else if c == "BS"@ || c == "BOTSERV"@ {
        CommandKind::BotServ
    } else if c == "RAW"@ || c == "QUOTE"@ {
        CommandKind::Raw
    } else if c == "HISTORY"@ || c == "CHATHISTORY"@ {
        CommandKind::History
    } else if c == "CTCP"@ {
        CommandKind::Ctcp
    } else if c == "VERSION"@ {
        CommandKind::Version
    } else if c == "PING"@ {
        CommandKind::Ping
    } else if c == "CLEAR"@ {
        CommandKind::Clear
    } else if c == "WHO"@ {
        CommandKind::Who
    } else if c == "WHOIS"@ {
        CommandKind::Whois
    } else if c == "WHOWAS"@ {
        CommandKind::Whowas
    } else if c == "NAMES"@ {
        CommandKind::Names
    } else if c == "LIST"@ {
        CommandKind::List
    } else if c == "KICK"@ || c == "K"@ {
        CommandKind::Kick
    } else if c == "BAN"@ {
        CommandKind::Ban
    } else if c == "UNBAN"@ {
        CommandKind::Unban
    } else if c == "KICKBAN"@ || c == "KB"@ {
        CommandKind::Kickban
    } else if c == "OP"@ {
        CommandKind::Op
    } else if c == "DEOP"@ {
        CommandKind::Deop
    } else if c == "VOICE"@ || c == "V"@ {
        CommandKind::Voice
    } else if c == "DEVOICE"@ {
        CommandKind::Devoice
    } else if c == "HALFOP"@ {
        CommandKind::Halfop
    } else if c == "DEHALFOP"@ || c == "DEHOP"@ {
        CommandKind::Dehalfop
    } else if c == "MODE"@ || c == "M"@ {
        CommandKind::Mode
    } else if c == "UMODE"@ {
        CommandKind::Umode
    } else if c == "SILENCE"@ {
        CommandKind::Silence
    } else if c == "ACCEPT"@ {
        CommandKind::Accept
    } else if c == "NOTICE"@ || c == "N"@ {
        CommandKind::Notice
    } else if c == "ONOTICE"@ {
        CommandKind::Onotice
    } else if c == "AMSG"@ {
        CommandKind::Amsg
    } else if c == "AME"@ {
        CommandKind::Ame
    } else if c == "SAY"@ {
        CommandKind::Say
    } else if c == "DESCRIBE"@ {
        CommandKind::Describe
    } else if c == "INVITE"@ {
        CommandKind::Invite
    } else if c == "CYCLE"@ || c == "REJOIN"@ || c == "HOP"@ {
        CommandKind::Cycle
    } else if c == "KNOCK"@ {
        CommandKind::Knock
    } else if c == "CLOSE"@ || c == "WC"@ {
        CommandKind::Close
    } else if c == "MOTD"@ {
        CommandKind::Motd
    } else if c == "TIME"@ {
        CommandKind::Time
    } else if c == "ADMIN"@ {
        CommandKind::Admin
    } else if c == "INFO"@ {
        CommandKind::Info
    } else if c == "LUSERS"@ {
        CommandKind::Lusers
    } else if c == "LINKS"@ {
        CommandKind::Links
    } else if c == "STATS"@ {
        CommandKind::Stats
    } else if c == "TRACE"@ {
        CommandKind::Trace
    } else if c == "USERHOST"@ {
        CommandKind::Userhost
    } else if c == "ISON"@ {
        CommandKind::Ison
    } else if c == "MONITOR"@ || c == "MON"@ {
        CommandKind::Monitor
    } else if c == "WALLOPS"@ {
        CommandKind::Wallops
    } else if c == "SERVER"@ {
        CommandKind::Server
    } else if c == "DISCONNECT"@ {
        CommandKind::Disconnect
    } else if c == "RECONNECT"@ {
        CommandKind::Reconnect
    } else if c == "ECHO"@ {
        CommandKind::Echo
    } else if c == "IGNORE"@ {
        CommandKind::Ignore
    } else if c == "UNIGNORE"@ {
        CommandKind::Unignore
    } else if c == "LASTLOG"@ || c == "GREP"@ || c == "SEARCH"@ {
        CommandKind::Lastlog
    } else if c == "SVERSION"@ {
        CommandKind::Sversion
    } else if c == "PERFORM"@ {
        CommandKind::Perform
    } else if c == "SETTINGS"@ {
        CommandKind::Settings
    } else if c == "HELP"@ || c == "H"@ || c == "?"@ {
        CommandKind::Help
    } else {
        CommandKind::Unknown
    }
}

/// Names of the commands of `spec_command_kind` taken in three groups.
pub open spec fn command_group_0(c: Seq<char>) -> bool {
    c == "JOIN"@ || c == "J"@ || c == "PART"@ || c == "LEAVE"@ || c == "MSG"@ || c == "PRIVMSG"@ || c == "QUERY"@ || c == "Q"@ || c == "ME"@ || c == "SLAP"@ || c == "NICK"@ || c == "TOPIC"@ || c == "QUIT"@ || c == "AWAY"@ || c == "BACK"@ || c == "NS"@ || c == "NICKSERV"@ || c == "CS"@ || c == "CHANSERV"@ || c == "MS"@ || c == "MEMOSERV"@ || c == "HS"@ || c == "HOSTSERV"@ || c == "OS"@ || c == "OPERSERV"@ || c == "BS"@ || c == "BOTSERV"@ || c == "RAW"@ || c == "QUOTE"@ || c == "HISTORY"@ || c == "CHATHISTORY"@ || c == "CTCP"@ || c == "VERSION"@ || c == "PING"@ || c == "CLEAR"@ || c == "WHO"@ || c == "WHOIS"@
}

pub open spec fn command_group_1(c: Seq<char>) -> bool {
    c == "WHOWAS"@ || c == "NAMES"@ || c == "LIST"@ || c == "KICK"@ || c == "K"@ || c == "BAN"@ || c == "UNBAN"@ || c == "KICKBAN"@ || c == "KB"@ || c == "OP"@ || c == "DEOP"@ || c == "VOICE"@ || c == "V"@ || c == "DEVOICE"@ || c == "HALFOP"@ || c == "DEHALFOP"@ || c == "DEHOP"@ || c == "MODE"@ || c == "M"@ || c == "UMODE"@ || c == "SILENCE"@ || c == "ACCEPT"@ || c == "NOTICE"@ || c == "N"@ || c == "ONOTICE"@ || c == "AMSG"@ || c == "AME"@ || c == "SAY"@ || c == "DESCRIBE"@ || c == "INVITE"@ || c == "CYCLE"@ || c == "REJOIN"@ || c == "HOP"@
}

pub open spec fn command_group_2(c: Seq<char>) -> bool {
    c == "KNOCK"@ || c == "CLOSE"@ || c == "WC"@ || c == "MOTD"@ || c == "TIME"@ || c == "ADMIN"@ || c == "INFO"@ || c == "LUSERS"@ || c == "LINKS"@ || c == "STATS"@ || c == "TRACE"@ || c == "USERHOST"@ || c == "ISON"@ || c == "MONITOR"@ || c == "MON"@ || c == "WALLOPS"@ || c == "SERVER"@ || c == "DISCONNECT"@ || c == "RECONNECT"@ || c == "ECHO"@ || c == "IGNORE"@ || c == "UNIGNORE"@ || c == "LASTLOG"@ || c == "GREP"@ || c == "SEARCH"@ || c == "SVERSION"@ || c == "PERFORM"@ || c == "SETTINGS"@ || c == "HELP"@ || c == "H"@ || c == "?"@
}

fn command_kind_0(v: &Vec<char>) -> (r: Option<CommandKind>)
    ensures
        r is None <==> !command_group_0(v@),
        r is Some ==> r == Some(spec_command_kind(v@)),
{
    if is_word(v, "JOIN") || is_word(v, "J") {
        return Some(CommandKind::Join);
    }
    if is_word(v, "PART") || is_word(v, "LEAVE") {
        return Some(CommandKind::Part);
    }
    if is_word(v, "MSG") || is_word(v, "PRIVMSG") {
        return Some(CommandKind::Msg);
    }
    if is_word(v, "QUERY") || is_word(v, "Q") {
        return Some(CommandKind::Query);
    }
    if is_word(v, "ME") {
        return Some(CommandKind::Me);
    }
    if is_word(v, "SLAP") {
        return Some(CommandKind::Slap);
    }
    if is_word(v, "NICK") {
        return Some(CommandKind::Nick);
    }
    if is_word(v, "TOPIC") {
        return Some(CommandKind::Topic);
    }
    if is_word(v, "QUIT") {
        return Some(CommandKind::Quit);
    }
    if is_word(v, "AWAY") {
        return Some(CommandKind::Away);
    }
    if is_word(v, "BACK") {
        return Some(CommandKind::Back);
    }
    if is_word(v, "NS") || is_word(v, "NICKSERV") {
        return Some(CommandKind::NickServ);
    }
    if is_word(v, "CS") || is_word(v, "CHANSERV") {
        return Some(CommandKind::ChanServ);
    }
    if is_word(v, "MS") || is_word(v, "MEMOSERV") {
        return Some(CommandKind::MemoServ);
    }
    if is_word(v, "HS") || is_word(v, "HOSTSERV") {
        return Some(CommandKind::HostServ);
    }
    if is_word(v, "OS") || is_word(v, "OPERSERV") {
        return Some(CommandKind::OperServ);
    }
    if is_word(v, "BS") || is_word(v, "BOTSERV") {
        return Some(CommandKind::BotServ);
    }
    if is_word(v, "RAW") || is_word(v, "QUOTE") {
        return Some(CommandKind::Raw);
    }
    if is_word(v, "HISTORY") || is_word(v, "CHATHISTORY") {
        return Some(CommandKind::History);
    }
    if is_word(v, "CTCP") {
        return Some(CommandKind::Ctcp);
    }
    if is_word(v, "VERSION") {
        return Some(CommandKind::Version);
    }
    if is_word(v, "PING") {
        return Some(CommandKind::Ping);
    }
    if is_word(v, "CLEAR") {
        return Some(CommandKind::Clear);
    }
    if is_word(v, "WHO") {
        return Some(CommandKind::Who);
    }
    if is_word(v, "WHOIS") {
        return Some(CommandKind::Whois);
    }
    None
}

fn command_kind_1(v: &Vec<char>) -> (r: Option<CommandKind>)
    requires
        !command_group_0(v@),
    ensures
        r is None <==> !command_group_1(v@),
        r is Some ==> r == Some(spec_command_kind(v@)),
{
    if is_word(v, "WHOWAS") {
        return Some(CommandKind::Whowas);
    }
    if is_word(v, "NAMES") {
        return Some(CommandKind::Names);
    }
    if is_word(v, "LIST") {
        return Some(CommandKind::List);
    }
    if is_word(v, "KICK") || is_word(v, "K") {
        return Some(CommandKind::Kick);
    }
    if is_word(v, "BAN") {
        return Some(CommandKind::Ban);
    }
    if is_word(v, "UNBAN") {
        return Some(CommandKind::Unban);
    }
    if is_word(v, "KICKBAN") || is_word(v, "KB") {
        return Some(CommandKind::Kickban);
    }
    if is_word(v, "OP") {
        return Some(CommandKind::Op);
    }
    if is_word(v, "DEOP") {
        return Some(CommandKind::Deop);
    }
    if is_word(v, "VOICE") || is_word(v, "V") {
        return Some(CommandKind::Voice);
    }
    if is_word(v, "DEVOICE") {
        return Some(CommandKind::Devoice);
    }
    if is_word(v, "HALFOP") {
        return Some(CommandKind::Halfop);
    }
    if is_word(v, "DEHALFOP") || is_word(v, "DEHOP") {
        return Some(CommandKind::Dehalfop);
    }
    if is_word(v, "MODE") || is_word(v, "M") {
        return Some(CommandKind::Mode);
    }
    if is_word(v, "UMODE") {
        return Some(CommandKind::Umode);
    }
    if is_word(v, "SILENCE") {
        return Some(CommandKind::Silence);
    }
    if is_word(v, "ACCEPT") {
        return Some(CommandKind::Accept);
    }
    if is_word(v, "NOTICE") || is_word(v, "N") {
        return Some(CommandKind::Notice);
    }
    if is_word(v, "ONOTICE") {
        return Some(CommandKind::Onotice);
    }
    if is_word(v, "AMSG") {
        return Some(CommandKind::Amsg);
    }
    if is_word(v, "AME") {
        return Some(CommandKind::Ame);
    }
    if is_word(v, "SAY") {
        return Some(CommandKind::Say);
    }
    if is_word(v, "DESCRIBE") {
        return Some(CommandKind::Describe);
    }
    if is_word(v, "INVITE") {
        return Some(CommandKind::Invite);
    }
    if is_word(v, "CYCLE") || is_word(v, "REJOIN") || is_word(v, "HOP") {
        return Some(CommandKind::Cycle);
    }
    None
}

fn command_kind_2(v: &Vec<char>) -> (r: Option<CommandKind>)
    requires
        !command_group_0(v@),
        !command_group_1(v@),
    ensures
        r is None <==> !command_group_2(v@),
        r is Some ==> r == Some(spec_command_kind(v@)),
{
    if is_word(v, "KNOCK") {
        return Some(CommandKind::Knock);
    }
    if is_word(v, "CLOSE") || is_word(v, "WC") {
        return Some(CommandKind::Close);
    }
    if is_word(v, "MOTD") {
        return Some(CommandKind::Motd);
    }
    if is_word(v, "TIME") {
        return Some(CommandKind::Time);
    }
    if is_word(v, "ADMIN") {
        return Some(CommandKind::Admin);
    }
    if is_word(v, "INFO") {
        return Some(CommandKind::Info);
    }
    if is_word(v, "LUSERS") {
        return Some(CommandKind::Lusers);
    }
    if is_word(v, "LINKS") {
        return Some(CommandKind::Links);
    }
    if is_word(v, "STATS") {
        return Some(CommandKind::Stats);
    }
    if is_word(v, "TRACE") {
        return Some(CommandKind::Trace);
    }
    if is_word(v, "USERHOST") {
        return Some(CommandKind::Userhost);
    }
    if is_word(v, "ISON") {
        return Some(CommandKind::Ison);
    }
    if is_word(v, "MONITOR") || is_word(v, "MON") {
        return Some(CommandKind::Monitor);
    }
    if is_word(v, "WALLOPS") {
        return Some(CommandKind::Wallops);
    }
    if is_word(v, "SERVER") {
        return Some(CommandKind::Server);
    }
    if is_word(v, "DISCONNECT") {
        return Some(CommandKind::Disconnect);
    }
    if is_word(v, "RECONNECT") {
        return Some(CommandKind::Reconnect);
    }
    if is_word(v, "ECHO") {
        return Some(CommandKind::Echo);
    }
    if is_word(v, "IGNORE") {
        return Some(CommandKind::Ignore);
    }
    if is_word(v, "UNIGNORE") {
        return Some(CommandKind::Unignore);
    }
    if is_word(v, "LASTLOG") || is_word(v, "GREP") || is_word(v, "SEARCH") {
        return Some(CommandKind::Lastlog);
    }
    if is_word(v, "SVERSION") {
        return Some(CommandKind::Sversion);
    }
    if is_word(v, "PERFORM") {
        return Some(CommandKind::Perform);
    }
    if is_word(v, "SETTINGS") {
        return Some(CommandKind::Settings);
    }
    if is_word(v, "HELP") || is_word(v, "H") || is_word(v, "?") {
        return Some(CommandKind::Help);
    }
    None
}

/// The command a name selects (see `spec_command_kind`).
pub fn command_kind(name: &str) -> (r: CommandKind)
    ensures
        r == spec_command_kind(name@),
{
    let v = chars_of(name);
    if let Some(k) = command_kind_0(&v) {
        return k;
    }
    if let Some(k) = command_kind_1(&v) {
        return k;
    }
    if let Some(k) = command_kind_2(&v) {
        return k;
    }
    CommandKind::Unknown
}

/// The state a slash command reads.
#[derive(Debug, Clone)]
pub struct CommandContext {
    /// The window the command was typed in (a channel or a query), if any.
    pub current_channel: Option<String>,
    pub my_nick: String,
    /// Default QUIT and PART reasons (empty: none).
    pub quit_message: String,
    pub part_message: String,
    /// The port of the current server form, kept by `/server host`.
    pub server_port: String,
    /// `/list` without a filter asks for channels with at least this many users.
    pub list_min_users: usize,
}

pub type PlanView = CommandPlan<Seq<char>, Seq<Seq<char>>>;

pub open spec fn nonempty(s: Seq<char>) -> Option<Seq<char>> {
    if s.len() == 0 { None } else { Some(s) }
}

/// A single system line for the current window.
pub open spec fn show_line(t: Seq<char>) -> PlanView {
    CommandPlan::Show(seq![t])
}

pub open spec fn normalized_channel(types: Seq<char>, name: Seq<char>) -> Seq<char> {
    if spec_is_channel(types, name) { name } else { seq!['#'] + name }
}

/// The current window, if it is a channel.
pub open spec fn current_chan(ctx: CommandContext, types: Seq<char>) -> Option<Seq<char>> {
    match ctx.current_channel {
        Some(c) => if spec_is_channel(types, c@) { Some(c@) } else { None },
        None => None,
    }
}

pub open spec fn plan_join(args: Seq<char>, types: Seq<char>) -> PlanView {
    let (a, key) = split_first_space(args);
    if a.len() == 0 {
        show_line("Usage: /join <#channel> [key]"@)
    } else {
        CommandPlan::Join { channel: normalized_channel(types, a), key }
    }
}

/// `/part`, `/part #chan`, `/part #chan reason`, `/part reason`: a leading
/// channel token names the channel, otherwise the words are the reason for
/// the current window; without one, the configured part message is used.
pub open spec fn plan_part(args: Seq<char>, ctx: CommandContext, types: Seq<char>) -> PlanView {
    let default_reason = nonempty(ctx.part_message@);
    let (first, rest) = split_first_space(args);
    if args.len() > 0 && spec_is_channel(types, first) {
        CommandPlan::Part { channel: first, reason: match rest { Some(r) => Some(r), None => default_reason } }
    } else {
        match ctx.current_channel {
            Some(c) => CommandPlan::Part { channel: c@, reason: if args.len() == 0 { default_reason } else { Some(args) } },
            None => CommandPlan::Nothing,
        }
    }
}

pub open spec fn plan_query(args: Seq<char>) -> PlanView {
    let (t, m) = split_first_space(args);
    if t.len() == 0 {
        CommandPlan::ShowInServer(seq!["Usage: /query <nick> [message]"@])
    } else {
        CommandPlan::Query { target: t, text: match m { Some(x) => nonempty(x), None => None } }
    }
}

pub open spec fn slap_text(args: Seq<char>) -> Seq<char> {
    "slaps "@ + (if args.len() == 0 { "everyone"@ } else { args }) + " around a bit with a large trout"@
}

pub open spec fn quit_reason(args: Seq<char>, ctx: CommandContext) -> Seq<char> {
    if args.len() > 0 {
        args
    } else if ctx.quit_message@.len() > 0 {
        ctx.quit_message@
    } else {
        "Linefeed"@
    }
}

pub open spec fn all_digits(s: Seq<char>) -> bool {
    forall|k: int| 0 <= k < s.len() ==> #[trigger] is_digit(s[k])
}

pub open spec fn positive(n: Option<usize>) -> Option<usize> {
    match n {
        Some(l) => if l > 0 { Some(l) } else { None },
        None => None,
    }
}

pub open spec fn history_for(target: Option<Seq<char>>, limit: Option<usize>, types: Seq<char>) -> PlanView {
    match target {
        Some(t) => if spec_is_channel(types, t) {
            CommandPlan::History { target: t, limit }
        } else {
            show_line("Usage: /history [#channel] [limit]"@)
        },
        None => show_line("Usage: /history [#channel] [limit]"@),
    }
}

/// `/history`, `/history 50`, `/history #chan`, `/history #chan 50`: the
/// channel defaults to the current window, the limit must be positive.
pub open spec fn plan_history(args: Seq<char>, ctx: CommandContext, types: Seq<char>) -> PlanView {
    let w = words(args);
    let cur = opt_view(ctx.current_channel);
    if w.len() == 0 {
        history_for(cur, None, types)
    } else if w.len() == 1 && all_digits(w[0]) {
        match positive(parse_usize(w[0])) {
            Some(l) => history_for(cur, Some(l), types),
            None => show_line("Usage: /history [#channel] [limit]"@),
        }
    } else if w.len() == 1 {
        history_for(Some(normalized_channel(types, w[0])), None, types)
    } else if w.len() == 2 {
        match positive(parse_usize(w[1])) {
            Some(l) => history_for(Some(normalized_channel(types, w[0])), Some(l), types),
            None => show_line("Usage: /history [#channel] [limit]"@),
        }
    } else {
        show_line("Usage: /history [#channel] [limit]"@)
    }
}

/// The CTCP payload `\x01COMMAND[ args]\x01`.
pub open spec fn ctcp_payload(command: Seq<char>, args: Seq<char>) -> Seq<char> {
    if args.len() == 0 {
        seq!['\x01'] + command + seq!['\x01']
    } else {
        seq!['\x01'] + command + seq![' '] + args + seq!['\x01']
    }
}

pub open spec fn plan_ctcp(args: Seq<char>) -> PlanView {
    let (t, rest) = split_first_space(args);
    match rest {
        Some(r) => {
            let c = unicode_uppercase(split_first_space(r).0);
            let extra = match split_first_space(r).1 { Some(e) => e, None => Seq::empty() };
            CommandPlan::Ctcp { target: t, command: c, payload: ctcp_payload(c, extra) }
        },
        None => show_line("Usage: /ctcp <nick> <command> [args]"@),
    }
}

/// `/list`: without a filter, channels with at least the configured number
/// of users (`>N` means more than N); `*` lists everything.
pub open spec fn list_filter(args: Seq<char>, min_users: usize) -> Option<Seq<char>> {
    if args.len() == 0 {
        if min_users >= 1 { Some(seq!['>'] + dec((min_users - 1) as nat)) } else { None }
    } else if args == seq!['*'] {
        None
    } else {
        Some(args)
    }
}

pub open spec fn plan_kick(args: Seq<char>, ctx: CommandContext, types: Seq<char>) -> PlanView {
    let (nick, reason) = split_first_space(args);
    if nick.len() == 0 {
        show_line("Usage: /kick <nick> [reason]"@)
    } else {
        match current_chan(ctx, types) {
            Some(c) => CommandPlan::Send(IrcCommand::Kick(c, nick, reason)),
            None => CommandPlan::Nothing,
        }
    }
}

pub open spec fn plan_ban(args: Seq<char>, ctx: CommandContext, types: Seq<char>) -> PlanView {
    if args.len() > 0 {
        match current_chan(ctx, types) {
            Some(c) => CommandPlan::Send(IrcCommand::Mode(c, Some("+b"@), seq![spec_nick_to_mask(args)])),
            None => CommandPlan::Nothing,
        }
    } else {
        match ctx.current_channel {
            Some(c) => CommandPlan::Send(IrcCommand::Mode(c@, Some("+b"@), Seq::empty())),
            None => CommandPlan::Nothing,
        }
    }
}

pub open spec fn plan_unban(args: Seq<char>, ctx: CommandContext, types: Seq<char>) -> PlanView {
    if args.len() > 0 {
        match current_chan(ctx, types) {
            Some(c) => CommandPlan::Send(IrcCommand::Mode(c, Some("-b"@), seq![spec_nick_to_mask(args)])),
            None => CommandPlan::Nothing,
        }
    } else {
        show_line("Usage: /unban <nick|mask>"@)
    }
}

/// Whether a /kickban target is a hostmask (then it cannot be kicked).
pub open spec fn looks_like_mask(t: Seq<char>) -> bool {
    has_char(t, '!') || has_char(t, '@') || has_char(t, '*')
}

pub open spec fn plan_kickban(args: Seq<char>, ctx: CommandContext, types: Seq<char>) -> PlanView {
    let (t, reason) = split_first_space(args);
    if t.len() == 0 {
        show_line("Usage: /kickban <nick> [reason]"@)
    } else {
        match current_chan(ctx, types) {
            Some(c) => CommandPlan::Kickban {
                channel: c,
                mask: spec_nick_to_mask(t),
                kick: if looks_like_mask(t) { None } else { Some((t, reason)) },
            },
            None => CommandPlan::Nothing,
        }
    }
}

/// `/op`, `/deop`, `/voice`, `/devoice`: one mode change per nick.
pub open spec fn plan_member_modes(args: Seq<char>, ctx: CommandContext, types: Seq<char>, mode: Seq<char>, usage: Option<Seq<char>>) -> PlanView {
    if args.len() > 0 {
        match current_chan(ctx, types) {
            Some(c) => CommandPlan::SetModes { channel: c, mode, nicks: words(args) },
            None => CommandPlan::Nothing,
        }
    } else {
        match usage {
            Some(u) => show_line(u),
            None => CommandPlan::Nothing,
        }
    }
}

pub open spec fn plan_mode(args: Seq<char>, ctx: CommandContext, types: Seq<char>) -> PlanView {
    if args.len() > 0 {
        match spec_mode_command_args(args, current_chan(ctx, types)) {
            Some((t, m, p)) => CommandPlan::Send(IrcCommand::Mode(t, m, p)),
            None => show_line("Usage: /mode [target] [+/-modes] [params]"@),
        }
    } else {
        match ctx.current_channel {
            Some(c) => CommandPlan::Send(IrcCommand::Mode(c@, None, Seq::empty())),
            None => CommandPlan::Nothing,
        }
    }
}

pub open spec fn silence_line(args: Seq<char>) -> Seq<char> {
    if args.len() == 0 {
        "SILENCE"@
    } else if args[0] == '-' || args[0] == '+' {
        "SILENCE "@ + args
    } else {
        "SILENCE +"@ + args
    }
}

pub open spec fn plan_invite(args: Seq<char>, ctx: CommandContext) -> PlanView {
    let (nick, ch) = split_first_space(args);
    let channel = match ch {
        Some(c) => c,
        None => match ctx.current_channel {
            Some(c) => c@,
            None => Seq::empty(),
        },
    };
    if nick.len() == 0 || channel.len() == 0 {
        show_line("Usage: /invite <nick> [#channel]"@)
    } else {
        CommandPlan::Invite { nick, channel }
    }
}

pub open spec fn plan_cycle(args: Seq<char>, ctx: CommandContext, types: Seq<char>) -> PlanView {
    let ch = if args.len() == 0 { opt_view(ctx.current_channel) } else { Some(args) };
    match ch {
        Some(c) => if spec_is_channel(types, c) { CommandPlan::Cycle(c) } else { CommandPlan::Nothing },
        None => CommandPlan::Nothing,
    }
}

/// The usage lines of `/monitor`.
pub open spec fn monitor_usage() -> Seq<Seq<char>> {
    seq![
        "Usage: /monitor + nick1,nick2 - Add to monitor list"@,
        "       /monitor - nick1,nick2 - Remove from list"@,
        "       /monitor L - List monitored nicks"@,
        "       /monitor C - Clear monitor list"@,
        "       /monitor S - Show status of monitored nicks"@,
    ]
}

/// `/server host`, `host port`, `host:port` or `[v6]:port`: a bad endpoint
/// or port (the form's port when none is given) is reported instead.
pub open spec fn plan_server(args: Seq<char>, ctx: CommandContext) -> PlanView {
    if args.len() == 0 {
        CommandPlan::ShowServer
    } else {
        match spec_parse_server_arg(args) {
            Err(e) => CommandPlan::ShowInServer(seq![e]),
            Ok((host, port)) => {
                let selected = match port { Some(p) => p, None => ctx.server_port@ };
                if trim(host).len() == 0 {
                    CommandPlan::ShowInServer(seq!["Server host cannot be empty"@])
                } else {
                    match spec_parse_server_port(selected) {
                        Err(e) => CommandPlan::ShowInServer(seq![e]),
                        Ok(_) => CommandPlan::Server { host, port },
                    }
                }
            },
        }
    }
}

pub open spec fn two_part(args: Seq<char>, usage: Seq<char>, notice: bool, action: bool) -> PlanView {
    match split_first_space(args) {
        (t, Some(m)) => if notice {
            CommandPlan::Notice { target: t, text: m }
        } else if action {
            CommandPlan::Action { target: t, text: m }
        } else {
            CommandPlan::Message { target: t, text: m }
        },
        _ => show_line(usage),
    }
}

pub open spec fn send_or_usage(args: Seq<char>, cmd: IrcCommand<Seq<char>, Seq<Seq<char>>>, usage: Seq<char>) -> PlanView {
    if args.len() > 0 { CommandPlan::Send(cmd) } else { show_line(usage) }
}

pub open spec fn service_plan(args: Seq<char>, service: Seq<char>, usage: Seq<char>) -> PlanView {
    if args.len() == 0 { show_line(usage) } else { CommandPlan::Service { service, text: args } }
}

/// `/perform`: list, clear (any ASCII case), or add a command.
pub open spec fn plan_perform(args: Seq<char>) -> PlanView {
    if args.len() == 0 {
        CommandPlan::ShowPerform
    } else if eq_ignore_ascii_case(args, "clear"@) {
        CommandPlan::ClearPerform
    } else {
        CommandPlan::AddPerform(args)
    }
}

/// What the command of kind `k` (typed as `cmd`, with arguments `args`)
/// asks of the client in context `ctx` (channel types `types`).
pub open spec fn spec_plan(k: CommandKind, cmd: Seq<char>, args: Seq<char>, ctx: CommandContext, types: Seq<char>) -> PlanView {
    let cur = opt_view(ctx.current_channel);
    match k {
        CommandKind::Join => plan_join(args, types),
        CommandKind::Part => plan_part(args, ctx, types),
        CommandKind::Msg => two_part(args, "Usage: /msg <target> <message>"@, false, false),
        CommandKind::Query => plan_query(args),
        CommandKind::Me => if args.len() == 0 {
            show_line("Usage: /me <action>"@)
        } else {
            match cur { Some(c) => CommandPlan::Action { target: c, text: args }, None => CommandPlan::Nothing }
        },
        CommandKind::Slap => match cur {
            Some(c) => CommandPlan::Action { target: c, text: slap_text(args) },
            None => CommandPlan::Nothing,
        },
        CommandKind::Nick => if words(args).len() == 0 {
            show_line("Usage: /nick <newnick>"@)
        } else {
            CommandPlan::Send(IrcCommand::Nick(words(args)[0]))
        },
        CommandKind::Topic => match cur {
            Some(c) => CommandPlan::Send(IrcCommand::Topic(c, nonempty(args))),
            None => CommandPlan::Nothing,
        },
        CommandKind::Quit => CommandPlan::Quit(quit_reason(args, ctx)),
        CommandKind::Away => CommandPlan::Away(nonempty(args)),
        CommandKind::Back => CommandPlan::Away(None),
        CommandKind::NickServ => service_plan(args, "NickServ"@, "Usage: /ns <command> [args]"@),
        CommandKind::ChanServ => service_plan(args, "ChanServ"@, "Usage: /cs <command> [args]"@),
        CommandKind::MemoServ => service_plan(args, "MemoServ"@, "Usage: /ms <command> [args]"@),
        CommandKind::HostServ => service_plan(args, "HostServ"@, "Usage: /hs <command> [args]"@),
        CommandKind::OperServ => service_plan(args, "OperServ"@, "Usage: /os <command> [args]"@),
        CommandKind::BotServ => service_plan(args, "BotServ"@, "Usage: /bs <command> [args]"@),
        CommandKind::Raw => CommandPlan::Send(IrcCommand::Raw(args)),
        CommandKind::History => plan_history(args, ctx, types),
        CommandKind::Ctcp => plan_ctcp(args),
        CommandKind::Version => if args.len() > 0 {
            CommandPlan::CtcpVersion(args)
        } else {
            show_line("Usage: /version <nick>"@)
        },
        CommandKind::Ping => if args.len() > 0 && args[0] != '#' {
            CommandPlan::CtcpPing(args)
        } else {
            show_line("Usage: /ping <nick>"@)
        },
        CommandKind::Clear => CommandPlan::Clear,
        CommandKind::Who => if args.len() > 0 {
            CommandPlan::Send(IrcCommand::Who(args))
        } else {
            match cur { Some(c) => CommandPlan::Send(IrcCommand::Who(c)), None => CommandPlan::Nothing }
        },
        CommandKind::Whois => send_or_usage(args, IrcCommand::Whois(args), "Usage: /whois <nick>"@),
        CommandKind::Whowas => send_or_usage(args, IrcCommand::Whowas(args), "Usage: /whowas <nick>"@),
        CommandKind::Names => if args.len() > 0 {
            CommandPlan::Send(IrcCommand::Names(Some(args)))
        } else {
            match cur { Some(c) => CommandPlan::Send(IrcCommand::Names(Some(c))), None => CommandPlan::Nothing }
        },
        CommandKind::List => CommandPlan::ListChannels(list_filter(args, ctx.list_min_users)),
        CommandKind::Kick => plan_kick(args, ctx, types),
        CommandKind::Ban => plan_ban(args, ctx, types),
        CommandKind::Unban => plan_unban(args, ctx, types),
        CommandKind::Kickban => plan_kickban(args, ctx, types),
        CommandKind::Op => plan_member_modes(args, ctx, types, "+o"@, Some("Usage: /op <nick> [nick2] ..."@)),
        CommandKind::Deop => plan_member_modes(args, ctx, types, "-o"@, Some("Usage: /deop <nick> [nick2] ..."@)),
        CommandKind::Voice => plan_member_modes(args, ctx, types, "+v"@, Some("Usage: /voice <nick> [nick2] ..."@)),
        CommandKind::Devoice => plan_member_modes(args, ctx, types, "-v"@, Some("Usage: /devoice <nick> [nick2] ..."@)),
        CommandKind::Halfop => plan_member_modes(args, ctx, types, "+h"@, None),
        CommandKind::Dehalfop => plan_member_modes(args, ctx, types, "-h"@, None),
        CommandKind::Mode => plan_mode(args, ctx, types),
        CommandKind::Umode => CommandPlan::Send(IrcCommand::Mode(ctx.my_nick@, nonempty(args), Seq::empty())),
        CommandKind::Silence => CommandPlan::Send(IrcCommand::Raw(silence_line(args))),
        CommandKind::Accept => CommandPlan::Send(IrcCommand::Raw(
            if args.len() == 0 { "ACCEPT *"@ } else { "ACCEPT "@ + args },
        )),
        CommandKind::Notice => two_part(args, "Usage: /notice <target> <message>"@, true, false),
        CommandKind::Onotice => if args.len() > 0 {
            match current_chan(ctx, types) {
                Some(c) => CommandPlan::Notice { target: seq!['@'] + c, text: args },
                None => CommandPlan::Nothing,
            }
        } else {
            show_line("Usage: /onotice <message>"@)
        },
        CommandKind::Amsg => if args.len() == 0 {
            show_line("Usage: /amsg <message>"@)
        } else {
            CommandPlan::Broadcast { text: args, action: false }
        },
        CommandKind::Ame => if args.len() == 0 {
            show_line("Usage: /ame <action>"@)
        } else {
            CommandPlan::Broadcast { text: args, action: true }
        },
        CommandKind::Say => match cur {
            Some(c) => if args.len() > 0 { CommandPlan::Say { target: c, text: args } } else { CommandPlan::Nothing },
            None => CommandPlan::Nothing,
        },
        CommandKind::Describe => two_part(args, "Usage: /describe <target> <action>"@, false, true),
        CommandKind::Invite => plan_invite(args, ctx),
        CommandKind::Cycle => plan_cycle(args, ctx, types),
        CommandKind::Knock => if args.len() > 0 {
            CommandPlan::Knock(if args[0] == '#' { args } else { seq!['#'] + args })
        } else {
            show_line("Usage: /knock <#channel>"@)
        },
        CommandKind::Close => CommandPlan::Close,
        CommandKind::Motd => CommandPlan::Send(IrcCommand::Motd(nonempty(args))),
        CommandKind::Time => CommandPlan::Send(IrcCommand::Time(nonempty(args))),
        CommandKind::Admin => CommandPlan::Send(IrcCommand::Admin(nonempty(args))),
        CommandKind::Info => CommandPlan::Send(IrcCommand::Info(nonempty(args))),
        CommandKind::Lusers => CommandPlan::Send(IrcCommand::Lusers),
        CommandKind::Links => CommandPlan::Send(IrcCommand::Links(nonempty(args))),
        CommandKind::Stats => send_or_usage(args, IrcCommand::Stats(args),
            "Usage: /stats <query> (c=servers, m=commands, o=opers, u=uptime)"@),
        CommandKind::Trace => CommandPlan::Send(IrcCommand::Trace(nonempty(args))),
        CommandKind::Userhost => send_or_usage(args, IrcCommand::Userhost(args), "Usage: /userhost <nick> [nick2] ..."@),
        CommandKind::Ison => send_or_usage(args, IrcCommand::Ison(args), "Usage: /ison <nick> [nick2] ..."@),
        CommandKind::Monitor => if args.len() == 0 {
            CommandPlan::Show(monitor_usage())
        } else {
            let (s, t) = spec_monitor_args(args, unicode_uppercase(split_first_space(args).0));
            CommandPlan::Send(IrcCommand::Monitor(s, t))
        },
        CommandKind::Wallops => send_or_usage(args, IrcCommand::Wallops(args), "Usage: /wallops <message>"@),
        CommandKind::Server => plan_server(args, ctx),
        CommandKind::Disconnect => CommandPlan::Disconnect(nonempty(args)),
        CommandKind::Reconnect => CommandPlan::Reconnect,
        CommandKind::Echo => if args.len() > 0 { show_line(args) } else { CommandPlan::Nothing },
        CommandKind::Ignore => if args.len() == 0 { CommandPlan::ShowIgnores } else { CommandPlan::Ignore(args) },
        CommandKind::Unignore => if args.len() == 0 {
            show_line("Usage: /unignore <nick|mask>"@)
        } else {
            CommandPlan::Unignore(args)
        },
        CommandKind::Lastlog => if args.len() > 0 { CommandPlan::Lastlog(args) } else { show_line("Usage: /lastlog <pattern>"@) },
        CommandKind::Sversion => CommandPlan::Send(IrcCommand::Version(nonempty(args))),
        CommandKind::Perform => plan_perform(args),
        CommandKind::Settings => CommandPlan::Settings,
        CommandKind::Help => CommandPlan::Help,
        CommandKind::Unknown => show_line("Unknown command: "@ + cmd + ". Type /help for list."@),
    }
}

/// The command name (upper-cased) and arguments of an input line `/name
/// args`: the name runs to the first space, and the arguments lose their
/// leading whitespace.
pub open spec fn command_line_parts(input: Seq<char>) -> (Seq<char>, Seq<char>) {
    let rest = input.subrange(1, input.len() as int);
    let (name, tail) = split_first_space(rest);
    (unicode_uppercase(name), trim_start(match tail { Some(t) => t, None => Seq::empty() }))
}

/// What the input line `/name args` asks of the client.
pub open spec fn spec_plan_command(input: Seq<char>, ctx: CommandContext, types: Seq<char>) -> PlanView {
    let (cmd, args) = command_line_parts(input);
    spec_plan(spec_command_kind(cmd), cmd, args, ctx, types)
}

/// `str::trim_start`, producing an owned string.
pub fn trim_start_string(s: &str) -> (r: String)
    ensures
        r@ == trim_start(s@),
{
    let v = chars_of(s);
    let mut a: usize = 0;
    while a < v.len() && is_whitespace(v[a])
        invariant
            a <= v.len(),
            v@ == s@,
            skip_ws(v@, 0) == skip_ws(v@, a as int),
        decreases v.len() - a,
    {
        a += 1;
    }
    string_from_range(&v, a, v.len())
}

fn is_empty_str(s: &str) -> (r: bool)
    ensures
        r == (s@.len() == 0),
{
    chars_of(s).len() == 0
}

fn cat(a: &str, b: &str) -> (r: String)
    ensures
        r@ == a@ + b@,
{
    let mut r = to_string(a);
    push_str(&mut r, b);
    r
}

fn one_line(t: &str) -> (r: Vec<String>)
    ensures
        views(r@) == seq![t@],
{
    let mut v: Vec<String> = Vec::new();
    v.push(to_string(t));
    assert(views(v@) =~= seq![t@]);
    v
}

fn show(t: &str) -> (r: CommandPlan<String, Vec<String>>)
    ensures
        r@ == show_line(t@),
{
    CommandPlan::Show(one_line(t))
}

fn nonempty_string(s: &str) -> (r: Option<String>)
    ensures
        opt_view(r) == nonempty(s@),
{
    if is_empty_str(s) { None } else { Some(to_string(s)) }
}

fn current(ctx: &CommandContext) -> (r: Option<String>)
    ensures
        opt_view(r) == opt_view(ctx.current_channel),
{
    match &ctx.current_channel {
        Some(c) => Some(c.clone()),
        None => None,
    }
}

fn current_channel_name(ctx: &CommandContext, support: &NetworkSupport) -> (r: Option<String>)
    ensures
        opt_view(r) == current_chan(*ctx, support.channel_types@),
{
    match &ctx.current_channel {
        Some(c) => if support.is_channel(c.as_str()) { Some(c.clone()) } else { None },
        None => None,
    }
}

fn join_plan(args: &str, support: &NetworkSupport) -> (r: CommandPlan<String, Vec<String>>)
    ensures
        r@ == plan_join(args@, support.channel_types@),
{
    let (a, key) = split_space(args);
    if is_empty_str(a.as_str()) {
        show("Usage: /join <#channel> [key]")
    } else {
        CommandPlan::Join { channel: normalize_channel_name(support, a.as_str()), key }
    }
}

fn part_plan(args: &str, ctx: &CommandContext, support: &NetworkSupport) -> (r: CommandPlan<String, Vec<String>>)
    ensures
        r@ == plan_part(args@, *ctx, support.channel_types@),
{
    let default_reason = nonempty_string(ctx.part_message.as_str());
    let (first, rest) = split_space(args);
    if !is_empty_str(args) && support.is_channel(first.as_str()) {
        let reason = match rest {
            Some(r) => Some(r),
            None => default_reason,
        };
        return CommandPlan::Part { channel: first, reason };
    }
    match current(ctx) {
        Some(c) => {
            let reason = if is_empty_str(args) { default_reason } else { Some(to_string(args)) };
            CommandPlan::Part { channel: c, reason }
        },
        None => CommandPlan::Nothing,
    }
}

fn query_plan(args: &str) -> (r: CommandPlan<String, Vec<String>>)
    ensures
        r@ == plan_query(args@),
{
    let (t, m) = split_space(args);
    if is_empty_str(t.as_str()) {
        return CommandPlan::ShowInServer(one_line("Usage: /query <nick> [message]"));
    }
    let text = match m {
        Some(x) => nonempty_string(x.as_str()),
        None => None,
    };
    CommandPlan::Query { target: t, text }
}

fn two_part_plan(args: &str, usage: &str, notice: bool, action: bool) -> (r: CommandPlan<String, Vec<String>>)
    ensures
        r@ == two_part(args@, usage@, notice, action),
{
    let (t, m) = split_space(args);
    match m {
        Some(m) => if notice {
            CommandPlan::Notice { target: t, text: m }
        } else if action {
            CommandPlan::Action { target: t, text: m }
        } else {
            CommandPlan::Message { target: t, text: m }
        },
        None => show(usage),
    }
}

fn service_plan_exec(args: &str, service: &str, usage: &str) -> (r: CommandPlan<String, Vec<String>>)
    ensures
        r@ == service_plan(args@, service@, usage@),
{
    if is_empty_str(args) {
        show(usage)
    } else {
        CommandPlan::Service { service: to_string(service), text: to_string(args) }
    }
}

fn all_digits_exec(s: &str) -> (r: bool)
    ensures
        r == all_digits(s@),
{
    let v = chars_of(s);
    let mut i: usize = 0;
    while i < v.len()
        invariant
            i <= v.len(),
            v@ == s@,
            forall|k: int| 0 <= k < i ==> #[trigger] is_digit(v@[k]),
        decreases v.len() - i,
    {
        if !is_ascii_digit(v[i]) {
            return false;
        }
        i += 1;
    }
    true
}

fn positive_limit(s: &str) -> (r: Option<usize>)
    ensures
        r == positive(parse_usize(s@)),
{
    match parse_usize_exec(&chars_of(s)) {
        Some(l) => if l > 0 { Some(l) } else { None },
        None => None,
    }
}

fn history_plan_for(target: Option<String>, limit: Option<usize>, support: &NetworkSupport) -> (r: CommandPlan<String, Vec<String>>)
    ensures
        r@ == history_for(opt_view(target), limit, support.channel_types@),
{
    match target {
        Some(t) => if support.is_channel(t.as_str()) {
            CommandPlan::History { target: t, limit }
        } else {
            show("Usage: /history [#channel] [limit]")
        },
        None => show("Usage: /history [#channel] [limit]"),
    }
}

fn history_plan(args: &str, ctx: &CommandContext, support: &NetworkSupport) -> (r: CommandPlan<String, Vec<String>>)
    ensures
        r@ == plan_history(args@, *ctx, support.channel_types@),
{
    let w = split_whitespace(args);
    let ghost ws = views(w@);
    if w.len() == 0 {
        return history_plan_for(current(ctx), None, support);
    }
    assert(ws[0] == w@[0]@);
    if w.len() == 1 && all_digits_exec(w[0].as_str()) {
        return match positive_limit(w[0].as_str()) {
            Some(l) => history_plan_for(current(ctx), Some(l), support),
            None => show("Usage: /history [#channel] [limit]"),
        };
    }
    if w.len() == 1 {
        return history_plan_for(Some(normalize_channel_name(support, w[0].as_str())), None, support);
    }
    if w.len() == 2 {
        assert(ws[1] == w@[1]@);
        return match positive_limit(w[1].as_str()) {
            Some(l) => history_plan_for(Some(normalize_channel_name(support, w[0].as_str())), Some(l), support),
            None => show("Usage: /history [#channel] [limit]"),
        };
    }
    show("Usage: /history [#channel] [limit]")
}

fn ctcp_plan(args: &str) -> (r: CommandPlan<String, Vec<String>>)
    ensures
        r@ == plan_ctcp(args@),
{
    let (t, rest) = split_space(args);
    match rest {
        Some(r) => {
            let (c, extra) = split_space(r.as_str());
            let command = to_uppercase(c.as_str());
            let extra = match extra {
                Some(e) => e,
                None => String::new(),
            };
            let mut payload = String::new();
            push_char(&mut payload, '\x01');
            push_str(&mut payload, command.as_str());
            if !is_empty_str(extra.as_str()) {
                push_char(&mut payload, ' ');
                push_str(&mut payload, extra.as_str());
            }
            push_char(&mut payload, '\x01');
            proof {
                if extra@.len() == 0 {
                    assert(payload@ =~= ctcp_payload(command@, extra@));
                } else {
                    assert(payload@ =~= ctcp_payload(command@, extra@));
                }
            }
            CommandPlan::Ctcp { target: t, command, payload }
        },
        None => show("Usage: /ctcp <nick> <command> [args]"),
    }
}

fn list_filter_exec(args: &str, min_users: usize) -> (r: Option<String>)
    ensures
        opt_view(r) == list_filter(args@, min_users),
{
    let av = chars_of(args);
    if av.len() == 0 {
        if min_users >= 1 {
            let mut s = String::new();
            push_char(&mut s, '>');
            push_dec(&mut s, (min_users - 1) as u64);
            return Some(s);
        }
        return None;
    }
    if av.len() == 1 && av[0] == '*' {
        assert(av@ =~= seq!['*']);
        return None;
    }
    proof {
        if args@ == seq!['*'] {
            assert(av@.len() == 1 && av@[0] == '*');
        }
    }
    Some(to_string(args))
}

fn kick_plan(args: &str, ctx: &CommandContext, support: &NetworkSupport) -> (r: CommandPlan<String, Vec<String>>)
    ensures
        r@ == plan_kick(args@, *ctx, support.channel_types@),
{
    let (nick, reason) = split_space(args);
    if is_empty_str(nick.as_str()) {
        return show("Usage: /kick <nick> [reason]");
    }
    match current_channel_name(ctx, support) {
        Some(c) => CommandPlan::Send(IrcCommand::Kick(c, nick, reason)),
        None => CommandPlan::Nothing,
    }
}

fn single(s: String) -> (r: Vec<String>)
    ensures
        views(r@) == seq![s@],
{
    let mut v: Vec<String> = Vec::new();
    v.push(s);
    assert(views(v@) =~= seq![v@[0]@]);
    v
}

fn ban_plan(args: &str, ctx: &CommandContext, support: &NetworkSupport, set: bool) -> (r: CommandPlan<String, Vec<String>>)
    ensures
        set ==> r@ == plan_ban(args@, *ctx, support.channel_types@),
        !set ==> r@ == plan_unban(args@, *ctx, support.channel_types@),
{
    let mode = if set { to_string("+b") } else { to_string("-b") };
    if !is_empty_str(args) {
        return match current_channel_name(ctx, support) {
            Some(c) => CommandPlan::Send(IrcCommand::Mode(c, Some(mode), single(nick_to_mask(args)))),
            None => CommandPlan::Nothing,
        };
    }
    if !set {
        return show("Usage: /unban <nick|mask>");
    }
    match current(ctx) {
        Some(c) => {
            let none: Vec<String> = Vec::new();
            assert(views(none@) =~= Seq::<Seq<char>>::empty());
            CommandPlan::Send(IrcCommand::Mode(c, Some(mode), none))
        },
        None => CommandPlan::Nothing,
    }
}

fn kickban_plan(args: &str, ctx: &CommandContext, support: &NetworkSupport) -> (r: CommandPlan<String, Vec<String>>)
    ensures
        r@ == plan_kickban(args@, *ctx, support.channel_types@),
{
    let (t, reason) = split_space(args);
    if is_empty_str(t.as_str()) {
        return show("Usage: /kickban <nick> [reason]");
    }
    match current_channel_name(ctx, support) {
        Some(c) => {
            let tv = chars_of(t.as_str());
            let is_mask = contains_char(&tv, '!') || contains_char(&tv, '@') || contains_char(&tv, '*');
            let mask = nick_to_mask(t.as_str());
            let kick = if is_mask { None } else { Some((t, reason)) };
            CommandPlan::Kickban { channel: c, mask, kick }
        },
        None => CommandPlan::Nothing,
    }
}

fn member_modes_plan(args: &str, ctx: &CommandContext, support: &NetworkSupport, mode: &str, usage: Option<&str>)
    -> (r: CommandPlan<String, Vec<String>>)
    ensures
        r@ == plan_member_modes(args@, *ctx, support.channel_types@, mode@,
            match usage { Some(u) => Some(u@), None => None }),
{
    if !is_empty_str(args) {
        return match current_channel_name(ctx, support) {
            Some(c) => CommandPlan::SetModes { channel: c, mode: to_string(mode), nicks: split_whitespace(args) },
            None => CommandPlan::Nothing,
        };
    }
    match usage {
        Some(u) => show(u),
        None => CommandPlan::Nothing,
    }
}

fn mode_plan(args: &str, ctx: &CommandContext, support: &NetworkSupport) -> (r: CommandPlan<String, Vec<String>>)
    ensures
        r@ == plan_mode(args@, *ctx, support.channel_types@),
{
    if !is_empty_str(args) {
        let cc = current_channel_name(ctx, support);
        let shorthand = match &cc {
            Some(c) => Some(c.as_str()),
            None => None,
        };
        return match mode_command_args(args, shorthand) {
            Some((t, m, p)) => CommandPlan::Send(IrcCommand::Mode(t, m, p)),
            None => show("Usage: /mode [target] [+/-modes] [params]"),
        };
    }
    match current(ctx) {
        Some(c) => {
            let none: Vec<String> = Vec::new();
            assert(views(none@) =~= Seq::<Seq<char>>::empty());
            CommandPlan::Send(IrcCommand::Mode(c, None, none))
        },
        None => CommandPlan::Nothing,
    }
}

fn silence_line_exec(args: &str) -> (r: String)
    ensures
        r@ == silence_line(args@),
{
    let av = chars_of(args);
    if av.len() == 0 {
        to_string("SILENCE")
    } else if av[0] == '-' || av[0] == '+' {
        cat("SILENCE ", args)
    } else {
        cat("SILENCE +", args)
    }
}

fn invite_plan(args: &str, ctx: &CommandContext) -> (r: CommandPlan<String, Vec<String>>)
    ensures
        r@ == plan_invite(args@, *ctx),
{
    let (nick, ch) = split_space(args);
    let channel = match ch {
        Some(c) => c,
        None => match current(ctx) {
            Some(c) => c,
            None => String::new(),
        },
    };
    if is_empty_str(nick.as_str()) || is_empty_str(channel.as_str()) {
        show("Usage: /invite <nick> [#channel]")
    } else {
        CommandPlan::Invite { nick, channel }
    }
}

fn cycle_plan(args: &str, ctx: &CommandContext, support: &NetworkSupport) -> (r: CommandPlan<String, Vec<String>>)
    ensures
        r@ == plan_cycle(args@, *ctx, support.channel_types@),
{
    let ch = if is_empty_str(args) { current(ctx) } else { Some(to_string(args)) };
    match ch {
        Some(c) => if support.is_channel(c.as_str()) { CommandPlan::Cycle(c) } else { CommandPlan::Nothing },
        None => CommandPlan::Nothing,
    }
}

fn monitor_usage_lines() -> (r: Vec<String>)
    ensures
        views(r@) == monitor_usage(),
{
    let mut v: Vec<String> = Vec::new();
    v.push(to_string("Usage: /monitor + nick1,nick2 - Add to monitor list"));
    v.push(to_string("       /monitor - nick1,nick2 - Remove from list"));
    v.push(to_string("       /monitor L - List monitored nicks"));
    v.push(to_string("       /monitor C - Clear monitor list"));
    v.push(to_string("       /monitor S - Show status of monitored nicks"));
    assert(views(v@) =~= monitor_usage());
    v
}

fn server_plan(args: &str, ctx: &CommandContext) -> (r: CommandPlan<String, Vec<String>>)
    ensures
        r@ == plan_server(args@, *ctx),
{
    if is_empty_str(args) {
        return CommandPlan::ShowServer;
    }
    match parse_server_arg(args) {
        Err(e) => CommandPlan::ShowInServer(single(e)),
        Ok((host, port)) => {
            let selected = match &port {
                Some(p) => p.clone(),
                None => ctx.server_port.clone(),
            };
            if is_empty_str(trim_string(host.as_str()).as_str()) {
                return CommandPlan::ShowInServer(one_line("Server host cannot be empty"));
            }
            match parse_server_port(selected.as_str()) {
                Err(e) => CommandPlan::ShowInServer(single(e)),
                Ok(_) => CommandPlan::Server { host, port },
            }
        },
    }
}

fn send_or_show(args: &str, cmd: IrcCommand<String, Vec<String>>, usage: &str) -> (r: CommandPlan<String, Vec<String>>)
    ensures
        r@ == send_or_usage(args@, cmd@, usage@),
{
    if is_empty_str(args) { show(usage) } else { CommandPlan::Send(cmd) }
}

fn perform_plan(args: &str) -> (r: CommandPlan<String, Vec<String>>)
    ensures
        r@ == plan_perform(args@),
{
    let av = chars_of(args);
    if av.len() == 0 {
        return CommandPlan::ShowPerform;
    }
    assert(av@.subrange(0, av@.len() as int) =~= av@);
    if range_eq_ignore_ascii_case(&av, 0, av.len(), &chars_of("clear")) {
        CommandPlan::ClearPerform
    } else {
        CommandPlan::AddPerform(to_string(args))
    }
}

fn plan_kind(k: CommandKind, cmd: &str, args: &str, ctx: &CommandContext, support: &NetworkSupport)
    -> (r: CommandPlan<String, Vec<String>>)
    ensures
        r@ == spec_plan(k, cmd@, args@, *ctx, support.channel_types@),
{
    match k {
        CommandKind::Join => join_plan(args, support),
        CommandKind::Part => part_plan(args, ctx, support),
        CommandKind::Msg => two_part_plan(args, "Usage: /msg <target> <message>", false, false),
        CommandKind::Query => query_plan(args),
        CommandKind::Me => if is_empty_str(args) {
            show("Usage: /me <action>")
        } else {
            match current(ctx) {
                Some(c) => CommandPlan::Action { target: c, text: to_string(args) },
                None => CommandPlan::Nothing,
            }
        },
        CommandKind::Slap => match current(ctx) {
            Some(c) => {
                let who = if is_empty_str(args) { to_string("everyone") } else { to_string(args) };
                let text = cat(cat("slaps ", who.as_str()).as_str(), " around a bit with a large trout");
                CommandPlan::Action { target: c, text }
            },
            None => CommandPlan::Nothing,
        },
        CommandKind::Nick => {
            let mut w = split_whitespace(args);
            if w.len() == 0 {
                show("Usage: /nick <newnick>")
            } else {
                let ghost ws = views(w@);
                let first = w.remove(0);
                assert(first@ == ws[0]);
                CommandPlan::Send(IrcCommand::Nick(first))
            }
        },
        CommandKind::Topic => match current(ctx) {
            Some(c) => CommandPlan::Send(IrcCommand::Topic(c, nonempty_string(args))),
            None => CommandPlan::Nothing,
        },
        CommandKind::Quit => {
            let reason = if !is_empty_str(args) {
                to_string(args)
            } else if !is_empty_str(ctx.quit_message.as_str()) {
                ctx.quit_message.clone()
            } else {
                to_string("Linefeed")
            };
            CommandPlan::Quit(reason)
        },
        CommandKind::Away => CommandPlan::Away(nonempty_string(args)),
        CommandKind::Back => CommandPlan::Away(None),
        CommandKind::NickServ => service_plan_exec(args, "NickServ", "Usage: /ns <command> [args]"),
        CommandKind::ChanServ => service_plan_exec(args, "ChanServ", "Usage: /cs <command> [args]"),
        CommandKind::MemoServ => service_plan_exec(args, "MemoServ", "Usage: /ms <command> [args]"),
        CommandKind::HostServ => service_plan_exec(args, "HostServ", "Usage: /hs <command> [args]"),
        CommandKind::OperServ => service_plan_exec(args, "OperServ", "Usage: /os <command> [args]"),
        CommandKind::BotServ => service_plan_exec(args, "BotServ", "Usage: /bs <command> [args]"),
        CommandKind::Raw => CommandPlan::Send(IrcCommand::Raw(to_string(args))),
        CommandKind::History => history_plan(args, ctx, support),
        CommandKind::Ctcp => ctcp_plan(args),
        CommandKind::Version => if !is_empty_str(args) {
            CommandPlan::CtcpVersion(to_string(args))
        } else {
            show("Usage: /version <nick>")
        },
        CommandKind::Ping => {
            let av = chars_of(args);
            if av.len() > 0 && av[0] != '#' {
                CommandPlan::CtcpPing(to_string(args))
            } else {
                show("Usage: /ping <nick>")
            }
        },
        CommandKind::Clear => CommandPlan::Clear,
        CommandKind::Who => if !is_empty_str(args) {
            CommandPlan::Send(IrcCommand::Who(to_string(args)))
        } else {
            match current(ctx) {
                Some(c) => CommandPlan::Send(IrcCommand::Who(c)),
                None => CommandPlan::Nothing,
            }
        },
        CommandKind::Whois => send_or_show(args, IrcCommand::Whois(to_string(args)), "Usage: /whois <nick>"),
        CommandKind::Whowas => send_or_show(args, IrcCommand::Whowas(to_string(args)), "Usage: /whowas <nick>"),
        CommandKind::Names => if !is_empty_str(args) {
            CommandPlan::Send(IrcCommand::Names(Some(to_string(args))))
        } else {
            match current(ctx) {
                Some(c) => CommandPlan::Send(IrcCommand::Names(Some(c))),
                None => CommandPlan::Nothing,
            }
        },
        CommandKind::List => CommandPlan::ListChannels(list_filter_exec(args, ctx.list_min_users)),
        CommandKind::Kick => kick_plan(args, ctx, support),
        CommandKind::Ban => ban_plan(args, ctx, support, true),
        CommandKind::Unban => ban_plan(args, ctx, support, false),
        CommandKind::Kickban => kickban_plan(args, ctx, support),
        CommandKind::Op => member_modes_plan(args, ctx, support, "+o", Some("Usage: /op <nick> [nick2] ...")),
        CommandKind::Deop => member_modes_plan(args, ctx, support, "-o", Some("Usage: /deop <nick> [nick2] ...")),
        CommandKind::Voice => member_modes_plan(args, ctx, support, "+v", Some("Usage: /voice <nick> [nick2] ...")),
        CommandKind::Devoice => member_modes_plan(args, ctx, support, "-v", Some("Usage: /devoice <nick> [nick2] ...")),
        CommandKind::Halfop => member_modes_plan(args, ctx, support, "+h", None),
        CommandKind::Dehalfop => member_modes_plan(args, ctx, support, "-h", None),
        CommandKind::Mode => mode_plan(args, ctx, support),
        CommandKind::Umode => {
            let none: Vec<String> = Vec::new();
            assert(views(none@) =~= Seq::<Seq<char>>::empty());
            CommandPlan::Send(IrcCommand::Mode(ctx.my_nick.clone(), nonempty_string(args), none))
        },
        CommandKind::Silence => CommandPlan::Send(IrcCommand::Raw(silence_line_exec(args))),
        CommandKind::Accept => CommandPlan::Send(IrcCommand::Raw(
            if is_empty_str(args) { to_string("ACCEPT *") } else { cat("ACCEPT ", args) },
        )),
        CommandKind::Notice => two_part_plan(args, "Usage: /notice <target> <message>", true, false),
        CommandKind::Onotice => if !is_empty_str(args) {
            match current_channel_name(ctx, support) {
                Some(c) => {
                    let mut target = String::new();
                    push_char(&mut target, '@');
                    push_str(&mut target, c.as_str());
                    CommandPlan::Notice { target, text: to_string(args) }
                },
                None => CommandPlan::Nothing,
            }
        } else {
            show("Usage: /onotice <message>")
        },
        CommandKind::Amsg => if is_empty_str(args) {
            show("Usage: /amsg <message>")
        } else {
            CommandPlan::Broadcast { text: to_string(args), action: false }
        },
        CommandKind::Ame => if is_empty_str(args) {
            show("Usage: /ame <action>")
        } else {
            CommandPlan::Broadcast { text: to_string(args), action: true }
        },
        CommandKind::Say => match current(ctx) {
            Some(c) => if !is_empty_str(args) {
                CommandPlan::Say { target: c, text: to_string(args) }
            } else {
                CommandPlan::Nothing
            },
            None => CommandPlan::Nothing,
        },
        CommandKind::Describe => two_part_plan(args, "Usage: /describe <target> <action>", false, true),
        CommandKind::Invite => invite_plan(args, ctx),
        CommandKind::Cycle => cycle_plan(args, ctx, support),
        CommandKind::Knock => {
            let av = chars_of(args);
            if av.len() > 0 {
                let channel = if av[0] == '#' {
                    to_string(args)
                } else {
                    let mut c = String::new();
                    push_char(&mut c, '#');
                    push_str(&mut c, args);
                    c
                };
                CommandPlan::Knock(channel)
            } else {
                show("Usage: /knock <#channel>")
            }
        },
        CommandKind::Close => CommandPlan::Close,
        CommandKind::Motd => CommandPlan::Send(IrcCommand::Motd(nonempty_string(args))),
        CommandKind::Time => CommandPlan::Send(IrcCommand::Time(nonempty_string(args))),
        CommandKind::Admin => CommandPlan::Send(IrcCommand::Admin(nonempty_string(args))),
        CommandKind::Info => CommandPlan::Send(IrcCommand::Info(nonempty_string(args))),
        CommandKind::Lusers => CommandPlan::Send(IrcCommand::Lusers),
        CommandKind::Links => CommandPlan::Send(IrcCommand::Links(nonempty_string(args))),
        CommandKind::Stats => send_or_show(args, IrcCommand::Stats(to_string(args)),
            "Usage: /stats <query> (c=servers, m=commands, o=opers, u=uptime)"),
        CommandKind::Trace => CommandPlan::Send(IrcCommand::Trace(nonempty_string(args))),
        CommandKind::Userhost => send_or_show(args, IrcCommand::Userhost(to_string(args)), "Usage: /userhost <nick> [nick2] ..."),
        CommandKind::Ison => send_or_show(args, IrcCommand::Ison(to_string(args)), "Usage: /ison <nick> [nick2] ..."),
        CommandKind::Monitor => if is_empty_str(args) {
            CommandPlan::Show(monitor_usage_lines())
        } else {
            let (s, t) = monitor_args(args);
            CommandPlan::Send(IrcCommand::Monitor(s, t))
        },
        CommandKind::Wallops => send_or_show(args, IrcCommand::Wallops(to_string(args)), "Usage: /wallops <message>"),
        CommandKind::Server => server_plan(args, ctx),
        CommandKind::Disconnect => CommandPlan::Disconnect(nonempty_string(args)),
        CommandKind::Reconnect => CommandPlan::Reconnect,
        CommandKind::Echo => if !is_empty_str(args) { show(args) } else { CommandPlan::Nothing },
        CommandKind::Ignore => if is_empty_str(args) { CommandPlan::ShowIgnores } else { CommandPlan::Ignore(to_string(args)) },
        CommandKind::Unignore => if is_empty_str(args) {
            show("Usage: /unignore <nick|mask>")
        } else {
            CommandPlan::Unignore(to_string(args))
        },
        CommandKind::Lastlog => if !is_empty_str(args) {
            CommandPlan::Lastlog(to_string(args))
        } else {
            show("Usage: /lastlog <pattern>")
        },
        CommandKind::Sversion => CommandPlan::Send(IrcCommand::Version(nonempty_string(args))),
        CommandKind::Perform => perform_plan(args),
        CommandKind::Settings => CommandPlan::Settings,
        CommandKind::Help => CommandPlan::Help,
        CommandKind::Unknown => show(cat(cat("Unknown command: ", cmd).as_str(), ". Type /help for list.").as_str()),
    }
}

/// The command name and arguments of `/name args` (see `command_line_parts`).
pub fn split_command_line(input: &str) -> (r: (String, String))
    requires
        input@.len() > 0,
    ensures
        (r.0@, r.1@) == command_line_parts(input@),
{
    let v = chars_of(input);
    let rest = string_from_range(&v, 1, v.len());
    let (name, tail) = split_space(rest.as_str());
    let args = match tail {
        Some(t) => trim_start_string(t.as_str()),
        None => {
            assert(trim_start(Seq::<char>::empty()) =~= Seq::<char>::empty());
            String::new()
        },
    };
    (to_uppercase(name.as_str()), args)
}

/// What the input line `input` (a `/` or another ASCII character, then the
/// command) asks of the client; see `spec_plan_command`.
pub fn plan_command(input: &str, ctx: &CommandContext, support: &NetworkSupport) -> (r: CommandPlan<String, Vec<String>>)
    requires
        input@.len() > 0,
        (input@[0] as u32) < 0x80,
    ensures
        r@ == spec_plan_command(input@, *ctx, support.channel_types@),
{
    let (cmd, args) = split_command_line(input);
    let k = command_kind(cmd.as_str());
    plan_kind(k, cmd.as_str(), args.as_str(), ctx, support)
}

/// Whether some entry of `list` has the key `key` under `support`.
pub open spec fn has_ignore_key(support: NetworkSupport, list: Seq<Seq<char>>, key: Seq<char>) -> bool {
    exists|i: int| 0 <= i < list.len()
        && spec_network_canonicalize(support.case_mapping, support.channel_types@, #[trigger] list[i]) == key
}

/// `/ignore mask`: add the mask (and its key to `keys`) unless an entry
/// already has the same key under the network's case mapping.
pub fn add_ignore(list: &mut Vec<String>, keys: &mut Vec<String>, mask: &str, support: &NetworkSupport) -> (added: bool)
    ensures
        added == !has_ignore_key(*support, views(old(list)@),
            spec_network_canonicalize(support.case_mapping, support.channel_types@, mask@)),
        added ==> views(final(list)@) == views(old(list)@).push(mask@),
        added ==> views(final(keys)@) == views(old(keys)@).push(
            spec_network_canonicalize(support.case_mapping, support.channel_types@, mask@)),
        !added ==> final(list)@ == old(list)@ && final(keys)@ == old(keys)@,
{
    let key = support.canonicalize(mask);
    let kv = chars_of(key.as_str());
    let ghost l = views(list@);
    let mut i: usize = 0;
    while i < list.len()
        invariant
            i <= list.len(),
            l == views(list@),
            kv@ == spec_network_canonicalize(support.case_mapping, support.channel_types@, mask@),
            forall|j: int| 0 <= j < i ==> spec_network_canonicalize(support.case_mapping, support.channel_types@,
                #[trigger] l[j]) != kv@,
        decreases list.len() - i,
    {
        let ek = support.canonicalize(list[i].as_str());
        if chars_eq(&chars_of(ek.as_str()), &kv) {
            assert(l[i as int] == list@[i as int]@);
            return false;
        }
        assert(l[i as int] == list@[i as int]@);
        i += 1;
    }
    keys.push(key);
    list.push(to_string(mask));
    assert(views(list@) =~= l.push(mask@));
    assert(views(keys@) =~= views(old(keys)@).push(kv@));
    true
}

/// The entries of `list` whose key under `m` differs from `key`.
pub open spec fn keep_other_keys(m: CaseMapping, list: Seq<Seq<char>>, key: Seq<char>) -> Seq<Seq<char>> {
    list.filter(|e: Seq<char>| spec_canonicalize(m, e) != key)
}

/// The keys of `list` under `m`.
pub open spec fn keys_of(m: CaseMapping, list: Seq<Seq<char>>) -> Seq<Seq<char>> {
    list.map_values(|e: Seq<char>| spec_canonicalize(m, e))
}

/// `/unignore mask`: drop every entry whose key equals the mask's key;
/// when something was dropped, `keys` is rebuilt from what is left.
pub fn remove_ignore(list: &mut Vec<String>, keys: &mut Vec<String>, mask: &str, support: &NetworkSupport) -> (removed: bool)
    ensures
        views(final(list)@) == keep_other_keys(support.case_mapping, views(old(list)@),
            spec_network_canonicalize(support.case_mapping, support.channel_types@, mask@)),
        removed == (final(list)@.len() < old(list)@.len()),
        removed ==> views(final(keys)@) == keys_of(support.case_mapping, views(final(list)@)),
        !removed ==> final(keys)@ == old(keys)@,
{
    let key = support.canonicalize(mask);
    let kv = chars_of(key.as_str());
    let m = support.case_mapping;
    let ghost l = views(list@);
    let ghost keyv = kv@;
    let mut kept: Vec<String> = Vec::new();
    let mut i: usize = 0;
    while i < list.len()
        invariant
            i <= list.len(),
            l == views(list@),
            m == support.case_mapping,
            keyv == kv@,
            views(kept@) == l.take(i as int).filter(|e: Seq<char>| spec_canonicalize(m, e) != keyv),
            kept@.len() <= i,
        decreases list.len() - i,
    {
        proof {
            assert(l.take(i as int + 1).drop_last() =~= l.take(i as int));
            assert(l.take(i as int + 1).last() == l[i as int]);
            assert(l[i as int] == list@[i as int]@);
            reveal_with_fuel(Seq::filter, 1);
        }
        let ek = m.canonicalize(list[i].as_str());
        if !chars_eq(&chars_of(ek.as_str()), &kv) {
            let ghost before = kept@;
            kept.push(list[i].clone());
            assert(views(kept@) =~= views(before).push(l[i as int]));
        }
        i += 1;
    }
    assert(l.take(l.len() as int) =~= l);
    let removed = kept.len() < list.len();
    *list = kept;
    if removed {
        let mut new_keys: Vec<String> = Vec::new();
        let mut j: usize = 0;
        while j < list.len()
            invariant
                j <= list.len(),
                m == support.case_mapping,
                views(new_keys@) == keys_of(m, views(list@)).take(j as int),
            decreases list.len() - j,
        {
            let ghost before = new_keys@;
            let k = m.canonicalize(list[j].as_str());
            assert(views(list@)[j as int] == list@[j as int]@);
            assert(k@ == keys_of(m, views(list@))[j as int]);
            new_keys.push(k);
            assert(views(new_keys@) =~= views(before).push(k@));
            assert(keys_of(m, views(list@)).take(j as int + 1) =~= keys_of(m, views(list@)).take(j as int).push(k@));
            j += 1;
        }
        assert(keys_of(m, views(list@)).take(list@.len() as int) =~= keys_of(m, views(list@)));
        *keys = new_keys;
    }
    removed
}

/// `/topic` in a window sets that window's topic to the text typed after
/// the command, kept whole; only `/topic` with no text asks for the
/// current topic. Outside any window it does nothing.
pub proof fn lemma_topic_sets_typed_text(input: Seq<char>, ctx: CommandContext, types: Seq<char>)
    requires
        command_line_parts(input).0 == "TOPIC"@,
    ensures
        ({
            let text = command_line_parts(input).1;
            let plan = spec_plan_command(input, ctx, types);
            match ctx.current_channel {
                Some(ch) => {
                    &&& text.len() > 0 ==> plan == CommandPlan::<Seq<char>, Seq<Seq<char>>>::Send(IrcCommand::Topic(ch@, Some(text)))
                    &&& text.len() == 0 ==> plan == CommandPlan::<Seq<char>, Seq<Seq<char>>>::Send(IrcCommand::Topic(ch@, None))
                },
                None => plan == CommandPlan::<Seq<char>, Seq<Seq<char>>>::Nothing,
            }
        }),
{
    reveal_strlit("TOPIC");
    reveal_strlit("JOIN");
    reveal_strlit("J");
    reveal_strlit("PART");
    reveal_strlit("LEAVE");
    reveal_strlit("MSG");
    reveal_strlit("PRIVMSG");
    reveal_strlit("QUERY");
    reveal_strlit("Q");
    reveal_strlit("ME");
    reveal_strlit("SLAP");
    reveal_strlit("NICK");
    let t = "TOPIC"@;
    assert(t != "LEAVE"@) by { assert(t[0] != "LEAVE"@[0]); }
    assert(t != "QUERY"@) by { assert(t[0] != "QUERY"@[0]); }
    assert(t != "JOIN"@ && t != "PART"@ && t != "SLAP"@ && t != "NICK"@);
    assert(t != "J"@ && t != "Q"@ && t != "ME"@ && t != "MSG"@ && t != "PRIVMSG"@);
    assert(spec_command_kind(t) == CommandKind::Topic);
}

/// Ignoring a mask and then unignoring it leaves no entry with its key,
/// except for a channel-like mask under `rfc8265` case mapping, where the
/// network key and the entry key are computed differently.
pub proof fn lemma_unignore_undoes_ignore(support: NetworkSupport, list: Seq<Seq<char>>, mask: Seq<char>)
    requires
        !(support.case_mapping == CaseMapping::Utf8Rfc8265 && spec_is_channel(support.channel_types@, mask)),
    ensures
        !keep_other_keys(support.case_mapping, list.push(mask),
            spec_network_canonicalize(support.case_mapping, support.channel_types@, mask)).contains(mask),
{
    let key = spec_network_canonicalize(support.case_mapping, support.channel_types@, mask);
    let m = support.case_mapping;
    let kept = list.push(mask).filter(|e: Seq<char>| spec_canonicalize(m, e) != key);
    assert(spec_canonicalize(m, mask) == key);
    if kept.contains(mask) {
        let k = choose|k: int| 0 <= k < kept.len() && kept[k] == mask;
        list.push(mask).lemma_filter_pred(|e: Seq<char>| spec_canonicalize(m, e) != key, k);
    }
}

/// A line without the `\r` of a `\r\n` ending.
pub open spec fn strip_cr(p: Seq<char>) -> Seq<char> {
    if p.len() > 0 && p.last() == '\r' { p.drop_last() } else { p }
}

/// `str::lines`: the text between line endings (`\n` or `\r\n`); a final
/// line ending does not start another, empty, line.
pub open spec fn text_lines(s: Seq<char>) -> Seq<Seq<char>> {
    let pieces = split_on(s, '\n');
    let terminated = pieces.take(pieces.len() - 1).map_values(|p: Seq<char>| strip_cr(p));
    if pieces.last().len() == 0 { terminated } else { terminated.push(pieces.last()) }
}

fn strip_cr_exec(p: &str) -> (r: String)
    ensures
        r@ == strip_cr(p@),
{
    let v = chars_of(p);
    if v.len() > 0 && v[v.len() - 1] == '\r' {
        assert(v@.subrange(0, v@.len() - 1) =~= v@.drop_last());
        string_from_range(&v, 0, v.len() - 1)
    } else {
        to_string(p)
    }
}

/// `str::lines`, collected.
pub fn text_lines_exec(s: &str) -> (r: Vec<String>)
    ensures
        views(r@) == text_lines(s@),
{
    let pieces = split_char(s, '\n');
    let ghost ps = views(pieces@);
    proof {
        lemma_split_on_len(s@, '\n');
    }
    let n = pieces.len() - 1;
    let mut out: Vec<String> = Vec::new();
    let mut i: usize = 0;
    while i < n
        invariant
            i <= n,
            n == pieces@.len() - 1,
            ps == views(pieces@),
            views(out@) == ps.take(i as int).map_values(|p: Seq<char>| strip_cr(p)),
        decreases n - i,
    {
        let line = strip_cr_exec(pieces[i].as_str());
        let ghost before = views(out@);
        assert(ps[i as int] == pieces@[i as int]@);
        out.push(line);
        assert(views(out@) =~= before.push(strip_cr(ps[i as int])));
        assert(ps.take(i as int + 1).map_values(|p: Seq<char>| strip_cr(p))
            =~= ps.take(i as int).map_values(|p: Seq<char>| strip_cr(p)).push(strip_cr(ps[i as int])));
        i += 1;
    }
    assert(ps.last() == pieces@[n as int]@);
    if !is_empty_str(pieces[n].as_str()) {
        let ghost before = views(out@);
        out.push(pieces[n].clone());
        assert(views(out@) =~= before.push(ps.last()));
    }
    out
}

/// Whether a line has something besides whitespace.
pub open spec fn not_blank(l: Seq<char>) -> bool {
    trim(l).len() > 0
}

/// How `/perform` shows a stored command: credential commands are hidden.
pub open spec fn shown_perform_line(l: Seq<char>) -> Seq<char> {
    if spec_command_line_contains_credentials(l) { "<credential command redacted>"@ } else { l }
}

/// `  1. first`, `  2. second`, ... for the given lines.
pub open spec fn numbered(ls: Seq<Seq<char>>) -> Seq<Seq<char>> {
    Seq::new(ls.len(), |i: int| "  "@ + dec((i + 1) as nat) + ". "@ + shown_perform_line(ls[i]))
}

/// The `/perform` listing of the stored commands (one per non-blank line).
pub open spec fn spec_perform_listing(auto_perform: Seq<char>) -> Seq<Seq<char>> {
    numbered(text_lines(auto_perform).filter(|l: Seq<char>| not_blank(l)))
}

/// List the auto-perform commands (see `spec_perform_listing`).
pub fn perform_listing(auto_perform: &str) -> (r: Vec<String>)
    ensures
        views(r@) == spec_perform_listing(auto_perform@),
{
    let lines = text_lines_exec(auto_perform);
    let ghost ls = views(lines@);
    let mut out: Vec<String> = Vec::new();
    let mut count: usize = 0;
    let mut i: usize = 0;
    while i < lines.len()
        invariant
            i <= lines.len(),
            ls == views(lines@),
            count == ls.take(i as int).filter(|l: Seq<char>| not_blank(l)).len(),
            count <= i,
            views(out@) == numbered(ls.take(i as int).filter(|l: Seq<char>| not_blank(l))),
        decreases lines.len() - i,
    {
        let ghost nb = ls.take(i as int).filter(|l: Seq<char>| not_blank(l));
        proof {
            assert(ls.take(i as int + 1).drop_last() =~= ls.take(i as int));
            assert(ls.take(i as int + 1).last() == ls[i as int]);
            assert(ls[i as int] == lines@[i as int]@);
            reveal_with_fuel(Seq::filter, 1);
        }
        let l = lines[i].as_str();
        if !is_empty_str(trim_string(l).as_str()) {
            let mut entry = to_string("  ");
            push_dec(&mut entry, (count + 1) as u64);
            push_str(&mut entry, ". ");
            if command_line_contains_credentials(l) {
                push_str(&mut entry, "<credential command redacted>");
            } else {
                push_str(&mut entry, l);
            }
            let ghost before = views(out@);
            assert(entry@ == "  "@ + dec((nb.len() + 1) as nat) + ". "@ + shown_perform_line(ls[i as int]));
            out.push(entry);
            count += 1;
            assert(views(out@) =~= before.push(entry@));
            assert(numbered(nb.push(ls[i as int])) =~= numbered(nb).push(entry@));
        }
        i += 1;
    }
    assert(ls.take(ls.len() as int) =~= ls);
    out
}

/// `/perform <command>`: append the command as a new line.
pub fn add_perform(auto_perform: &mut String, command: &str)
    ensures
        final(auto_perform)@ == if old(auto_perform)@.len() == 0 {
            command@
        } else {
            old(auto_perform)@ + seq!['\n'] + command@
        },
{
    if !is_empty_str(auto_perform.as_str()) {
        push_char(auto_perform, '\n');
    }
    push_str(auto_perform, command);
}

/// Whether `p` occurs in `s` (`str::contains`).
pub open spec fn contains_text(s: Seq<char>, p: Seq<char>) -> bool {
    exists|i: int| occurs_at(s, i, p)
}

/// `str::contains`.
pub fn contains_text_exec(s: &str, p: &str) -> (r: bool)
    ensures
        r == contains_text(s@, p@),
{
    let v = chars_of(s);
    let w = chars_of(p);
    if w.len() == 0 {
        assert(occurs_at(s@, 0, p@)) by {
            assert(s@.subrange(0, 0) =~= p@);
        }
        return true;
    }
    if w.len() > v.len() {
        assert(forall|i: int| !occurs_at(s@, i, p@));
        return false;
    }
    let mut pos: usize = 0;
    while pos <= v.len() - w.len()
        invariant
            1 <= w.len() <= v.len(),
            v@ == s@,
            w@ == p@,
            pos <= v.len() - w.len() + 1,
            forall|i: int| 0 <= i < pos ==> !#[trigger] occurs_at(s@, i, p@),
        decreases v.len() - w.len() + 1 - pos,
    {
        if starts_with_at(&v, pos, &w) {
            assert(v@.subrange(pos as int, v@.len() as int).subrange(0, w@.len() as int)
                =~= v@.subrange(pos as int, pos + w@.len()));
            assert(occurs_at(s@, pos as int, p@));
            return true;
        }
        assert(v@.subrange(pos as int, v@.len() as int).subrange(0, w@.len() as int)
            =~= v@.subrange(pos as int, pos + w@.len()));
        pos += 1;
    }
    assert(forall|i: int| !#[trigger] occurs_at(s@, i, p@));
    false
}

/// Whether `/lastlog` shows a message for the lower-cased pattern `pat`:
/// logged messages whose lower-cased text or sender contains it.
pub open spec fn lastlog_hit(m: ChatMessage, pat: Seq<char>) -> bool {
    !m.no_log && (contains_text(unicode_lowercase(m.content@), pat) || contains_text(unicode_lowercase(m.sender@), pat))
}

/// How `/lastlog` shows a message: `[timestamp] <sender> text`.
pub open spec fn lastlog_line(m: ChatMessage) -> Seq<char> {
    "["@ + m.timestamp@ + "] <"@ + m.sender@ + "> "@ + m.content@
}

/// The result lines for the hits among `msgs[lo..hi]`, newest first.
pub open spec fn lastlog_hits(msgs: Seq<ChatMessage>, pat: Seq<char>, lo: int, hi: int) -> Seq<Seq<char>>
    decreases hi - lo,
{
    if lo >= hi {
        Seq::empty()
    } else if lastlog_hit(msgs[lo], pat) {
        lastlog_hits(msgs, pat, lo + 1, hi).push(lastlog_line(msgs[lo]))
    } else {
        lastlog_hits(msgs, pat, lo + 1, hi)
    }
}

/// `/lastlog pattern`: among the newest 500 messages, newest first, the
/// first 50 hits (see `lastlog_hit`) for the lower-cased pattern.
pub open spec fn spec_lastlog(msgs: Seq<ChatMessage>, pattern: Seq<char>) -> Seq<Seq<char>> {
    let lo = if msgs.len() > 500 { msgs.len() - 500 } else { 0 };
    let hits = lastlog_hits(msgs, unicode_lowercase(pattern), lo, msgs.len() as int);
    if hits.len() > 50 { hits.take(50) } else { hits }
}

proof fn lemma_lastlog_hits_split(msgs: Seq<ChatMessage>, pat: Seq<char>, lo: int, mid: int, hi: int)
    requires
        lo <= mid <= hi,
    ensures
        lastlog_hits(msgs, pat, lo, hi) == lastlog_hits(msgs, pat, mid, hi) + lastlog_hits(msgs, pat, lo, mid),
    decreases mid - lo,
{
    if lo == mid {
        assert(lastlog_hits(msgs, pat, mid, hi) + Seq::<Seq<char>>::empty() =~= lastlog_hits(msgs, pat, mid, hi));
    } else {
        lemma_lastlog_hits_split(msgs, pat, lo + 1, mid, hi);
        let a = lastlog_hits(msgs, pat, mid, hi);
        let b = lastlog_hits(msgs, pat, lo + 1, mid);
        if lastlog_hit(msgs[lo], pat) {
            assert((a + b).push(lastlog_line(msgs[lo])) =~= a + b.push(lastlog_line(msgs[lo])));
        }
    }
}

fn lastlog_line_exec(m: &ChatMessage) -> (r: String)
    ensures
        r@ == lastlog_line(*m),
{
    let mut r = to_string("[");
    push_str(&mut r, m.timestamp.as_str());
    push_str(&mut r, "] <");
    push_str(&mut r, m.sender.as_str());
    push_str(&mut r, "> ");
    push_str(&mut r, m.content.as_str());
    r
}

/// Search the scrollback `msgs` for `/lastlog` (see `spec_lastlog`).
pub fn lastlog(msgs: &std::collections::VecDeque<ChatMessage>, pattern: &str) -> (r: Vec<String>)
    ensures
        views(r@) == spec_lastlog(msgs@, pattern@),
{
    let pat = to_lowercase(pattern);
    let n = msgs.len();
    let lo: usize = if n > 500 { n - 500 } else { 0 };
    let mut out: Vec<String> = Vec::new();
    let mut j: usize = n;
    while j > lo && out.len() < 50
        invariant
            lo <= j <= n,
            n == msgs@.len(),
            lo == (if n > 500 { n - 500 } else { 0 }),
            pat@ == unicode_lowercase(pattern@),
            views(out@) == lastlog_hits(msgs@, pat@, j as int, n as int),
            out@.len() <= 50,
        decreases j,
    {
        let m = &msgs[j - 1];
        let hit = !m.no_log && (contains_text_exec(to_lowercase(m.content.as_str()).as_str(), pat.as_str())
            || contains_text_exec(to_lowercase(m.sender.as_str()).as_str(), pat.as_str()));
        proof {
            lemma_lastlog_hits_split(msgs@, pat@, j - 1, j as int, n as int);
            reveal_with_fuel(lastlog_hits, 2);
        }
        if hit {
            let ghost before = views(out@);
            out.push(lastlog_line_exec(m));
            assert(views(out@) =~= before.push(lastlog_line(msgs@[j - 1])));
        }
        assert(views(out@) =~= lastlog_hits(msgs@, pat@, j - 1, n as int)) by {
            assert(lastlog_hits(msgs@, pat@, j - 1, j as int) == if lastlog_hit(msgs@[j - 1], pat@) {
                Seq::<Seq<char>>::empty().push(lastlog_line(msgs@[j - 1]))
            } else {
                Seq::<Seq<char>>::empty()
            });
        }
        j -= 1;
    }
    proof {
        lemma_lastlog_hits_split(msgs@, pat@, lo as int, j as int, n as int);
        let all = lastlog_hits(msgs@, pat@, lo as int, n as int);
        if out@.len() == 50 {
            assert(all.take(50) =~= views(out@));
        } else {
            assert(j == lo);
            assert(lastlog_hits(msgs@, pat@, lo as int, lo as int) =~= Seq::<Seq<char>>::empty());
            assert(all =~= views(out@));
        }
    }
    out
}

/// The channels of an auto-join list: its comma-separated entries, trimmed,
/// without the empty ones, each made a channel name.
pub open spec fn spec_auto_join_targets(list: Seq<char>, types: Seq<char>) -> Seq<Seq<char>> {
    split_on(list, ',').map_values(|e: Seq<char>| trim(e)).filter(|e: Seq<char>| e.len() > 0)
        .map_values(|e: Seq<char>| normalized_channel(types, e))
}

/// The channels joined after registration (see `spec_auto_join_targets`).
pub fn auto_join_targets(list: &str, support: &NetworkSupport) -> (r: Vec<String>)
    ensures
        views(r@) == spec_auto_join_targets(list@, support.channel_types@),
{
    let pieces = split_char(list, ',');
    let ghost ps = views(pieces@);
    let ghost types = support.channel_types@;
    let mut out: Vec<String> = Vec::new();
    let mut i: usize = 0;
    while i < pieces.len()
        invariant
            i <= pieces.len(),
            ps == views(pieces@),
            ps == split_on(list@, ','),
            types == support.channel_types@,
            views(out@) == ps.take(i as int).map_values(|e: Seq<char>| trim(e)).filter(|e: Seq<char>| e.len() > 0)
                .map_values(|e: Seq<char>| normalized_channel(types, e)),
        decreases pieces.len() - i,
    {
        let ghost tr = ps.take(i as int).map_values(|e: Seq<char>| trim(e));
        let ghost tr1 = ps.take(i as int + 1).map_values(|e: Seq<char>| trim(e));
        let ghost f = tr.filter(|e: Seq<char>| e.len() > 0);
        let ghost f1 = tr1.filter(|e: Seq<char>| e.len() > 0);
        assert(ps[i as int] == pieces@[i as int]@);
        assert(tr1 =~= tr.push(trim(ps[i as int])));
        proof {
            assert(tr.push(trim(ps[i as int])).drop_last() =~= tr);
            reveal_with_fuel(Seq::filter, 1);
        }
        let t = trim_string(pieces[i].as_str());
        if !is_empty_str(t.as_str()) {
            let ghost before = views(out@);
            let c = normalize_channel_name(support, t.as_str());
            out.push(c);
            assert(f1 =~= f.push(t@));
            assert(views(out@) =~= before.push(c@));
            assert(f1.map_values(|e: Seq<char>| normalized_channel(types, e))
                =~= f.map_values(|e: Seq<char>| normalized_channel(types, e)).push(c@));
        } else {
            assert(f1 =~= f);
        }
        i += 1;
    }
    assert(ps.take(ps.len() as int) =~= ps);
    out
}

/// The auto-perform commands run after registration: the non-blank lines.
pub open spec fn spec_auto_perform_commands(text: Seq<char>) -> Seq<Seq<char>> {
    text_lines(text).filter(|l: Seq<char>| not_blank(l))
}

/// The auto-perform commands (see `spec_auto_perform_commands`).
pub fn auto_perform_commands(text: &str) -> (r: Vec<String>)
    ensures
        views(r@) == spec_auto_perform_commands(text@),
{
    let lines = text_lines_exec(text);
    let ghost ls = views(lines@);
    let mut out: Vec<String> = Vec::new();
    let mut i: usize = 0;
    while i < lines.len()
        invariant
            i <= lines.len(),
            ls == views(lines@),
            views(out@) == ls.take(i as int).filter(|l: Seq<char>| not_blank(l)),
        decreases lines.len() - i,
    {
        proof {
            assert(ls.take(i as int + 1).drop_last() =~= ls.take(i as int));
            assert(ls.take(i as int + 1).last() == ls[i as int]);
            assert(ls[i as int] == lines@[i as int]@);
            reveal_with_fuel(Seq::filter, 1);
        }
        if !is_empty_str(trim_string(lines[i].as_str()).as_str()) {
            let ghost before = views(out@);
            out.push(lines[i].clone());
            assert(views(out@) =~= before.push(ls[i as int]));
        }
        i += 1;
    }
    assert(ls.take(ls.len() as int) =~= ls);
    out
}

/// An auto-perform entry as a command line: `/` is added when missing.
pub open spec fn spec_perform_command_line(cmd: Seq<char>) -> Seq<char> {
    if cmd.len() > 0 && cmd[0] == '/' { cmd } else { seq!['/'] + cmd }
}

/// The command line an auto-perform entry runs as.
pub fn perform_command_line(cmd: &str) -> (r: String)
    ensures
        r@ == spec_perform_command_line(cmd@),
{
    let v = chars_of(cmd);
    if v.len() > 0 && v[0] == '/' {
        to_string(cmd)
    } else {
        let mut r = String::new();
        push_char(&mut r, '/');
        push_str(&mut r, cmd);
        r
    }
}

/// Every auto-perform command runs as a slash command: its command line
/// starts with `/`, as `plan_command` needs.
pub proof fn lemma_auto_perform_runs_commands(text: Seq<char>, i: int)
    requires
        0 <= i < spec_auto_perform_commands(text).len(),
    ensures
        spec_perform_command_line(spec_auto_perform_commands(text)[i]).len() > 0,
        spec_perform_command_line(spec_auto_perform_commands(text)[i])[0] == '/',
{
}


/// The help text of `/help`: section headings, each followed by its
/// commands, shown as display-only lines.
pub open spec fn spec_help_lines() -> Seq<Seq<char>> {
    seq![
        "=== Basic Commands ==="@,
        "/join #channel      - Join a channel (alias: /j)"@,
        "/part [#channel]    - Leave channel (alias: /leave)"@,
        "/msg <nick> <text>  - Send private message (alias: /query)"@,
        "/me <action>        - Send action message"@,
        "/nick <newnick>     - Change nickname"@,
        "/quit [message]     - Disconnect from server"@,
        "=== Channel Commands ==="@,
        "/topic [text]       - View or set topic"@,
        "/names [#channel]   - List users in channel"@,
        "/list [pattern]     - List channels"@,
        "/cycle              - Part and rejoin (alias: /hop, /rejoin)"@,
        "/invite <nick>      - Invite user to channel"@,
        "/knock <#channel>   - Request invite"@,
        "=== Operator Commands ==="@,
        "/kick <nick> [why]  - Kick user (alias: /k)"@,
        "/ban <mask>         - Ban user (+b)"@,
        "/unban <mask>       - Remove ban (-b)"@,
        "/kickban <nick>     - Ban and kick (alias: /kb)"@,
        "/op <nick>          - Give ops (+o)"@,
        "/deop <nick>        - Remove ops (-o)"@,
        "/voice <nick>       - Give voice (+v)"@,
        "/devoice <nick>     - Remove voice (-v)"@,
        "/mode <+/-modes>    - Set channel/user modes"@,
        "=== Messaging ==="@,
        "/notice <tgt> <msg> - Send notice (alias: /n)"@,
        "/onotice <message>  - Notice to channel ops"@,
        "/amsg <message>     - Message all channels"@,
        "/ame <action>       - Action to all channels"@,
        "/say <text>         - Send as message (even if /)"@,
        "/describe <t> <act> - Send action to target"@,
        "=== Info Commands ==="@,
        "/whois <nick>       - User info"@,
        "/whowas <nick>      - Offline user info"@,
        "/who <mask>         - Query users"@,
        "/userhost <nick>    - Get user@host"@,
        "/ison <nicks>       - Check if online"@,
        "/motd               - Show MOTD"@,
        "/lusers             - Network stats"@,
        "/time               - Server time"@,
        "=== CTCP ==="@,
        "/ctcp <n> <cmd>     - Send CTCP request"@,
        "/version <nick>     - Query version"@,
        "/ping <nick>        - Measure latency"@,
        "=== Connection ==="@,
        "/server <host:port> - Connect to server"@,
        "/disconnect         - Disconnect"@,
        "/reconnect          - Reconnect"@,
        "/away [message]     - Set away message"@,
        "/back               - Clear away status"@,
        "=== Utility ==="@,
        "/clear              - Clear window"@,
        "/lastlog <pattern>  - Search messages"@,
        "/history [#c] [n]  - Load server channel history"@,
        "/ignore [mask]      - List or add to ignore list"@,
        "/unignore <mask>    - Remove from ignore list"@,
        "/perform [cmd]      - View/add auto-perform"@,
        "/echo <text>        - Echo to window"@,
        "/raw <command>      - Send raw IRC"@,
        "/settings           - Open settings"@,
        "/slap <nick>        - Slap with trout"@,
        "=== Services ==="@,
        "/ns <command>       - NickServ message"@,
        "/cs <command>       - ChanServ message"@,
        "/ms <command>       - MemoServ message"@,
        "/hs <command>       - HostServ message"@,
        "/os <command>       - OperServ message"@,
        "/bs <command>       - BotServ message"@,
        "=== Advanced ==="@,
        "/umode [modes]      - Set/view user modes"@,
        "/silence [+/-mask]  - Server-side ignore"@,
        "/accept [nick]      - Callerid accept list"@,
        "/monitor + nicks    - Track online status"@,
        "=== Shortcuts ==="@,
        "Alt+1-9             - Switch tabs"@,
        "Ctrl+W              - Close tab"@,
        "Up/Down             - Command history"@,
        "Tab                 - Nick completion"@,
    ]
}

/// The lines `/help` shows (see `spec_help_lines`).
pub fn help_lines() -> (r: Vec<String>)
    ensures
        views(r@) == spec_help_lines(),
{
    let mut v: Vec<String> = Vec::new();
    v.push(to_string("=== Basic Commands ==="));
    v.push(to_string("/join #channel      - Join a channel (alias: /j)"));
    v.push(to_string("/part [#channel]    - Leave channel (alias: /leave)"));
    v.push(to_string("/msg <nick> <text>  - Send private message (alias: /query)"));
    v.push(to_string("/me <action>        - Send action message"));
    v.push(to_string("/nick <newnick>     - Change nickname"));
    v.push(to_string("/quit [message]     - Disconnect from server"));
    v.push(to_string("=== Channel Commands ==="));
    v.push(to_string("/topic [text]       - View or set topic"));
    v.push(to_string("/names [#channel]   - List users in channel"));
    v.push(to_string("/list [pattern]     - List channels"));
    v.push(to_string("/cycle              - Part and rejoin (alias: /hop, /rejoin)"));
    v.push(to_string("/invite <nick>      - Invite user to channel"));
    v.push(to_string("/knock <#channel>   - Request invite"));
    v.push(to_string("=== Operator Commands ==="));
    v.push(to_string("/kick <nick> [why]  - Kick user (alias: /k)"));
    v.push(to_string("/ban <mask>         - Ban user (+b)"));
    v.push(to_string("/unban <mask>       - Remove ban (-b)"));
    v.push(to_string("/kickban <nick>     - Ban and kick (alias: /kb)"));
    v.push(to_string("/op <nick>          - Give ops (+o)"));
    v.push(to_string("/deop <nick>        - Remove ops (-o)"));
    v.push(to_string("/voice <nick>       - Give voice (+v)"));
    v.push(to_string("/devoice <nick>     - Remove voice (-v)"));
    v.push(to_string("/mode <+/-modes>    - Set channel/user modes"));
    v.push(to_string("=== Messaging ==="));
    v.push(to_string("/notice <tgt> <msg> - Send notice (alias: /n)"));
    v.push(to_string("/onotice <message>  - Notice to channel ops"));
    v.push(to_string("/amsg <message>     - Message all channels"));
    v.push(to_string("/ame <action>       - Action to all channels"));
    v.push(to_string("/say <text>         - Send as message (even if /)"));
    v.push(to_string("/describe <t> <act> - Send action to target"));
    v.push(to_string("=== Info Commands ==="));
    v.push(to_string("/whois <nick>       - User info"));
    v.push(to_string("/whowas <nick>      - Offline user info"));
    v.push(to_string("/who <mask>         - Query users"));
    v.push(to_string("/userhost <nick>    - Get user@host"));
    v.push(to_string("/ison <nicks>       - Check if online"));
    v.push(to_string("/motd               - Show MOTD"));
    v.push(to_string("/lusers             - Network stats"));
    v.push(to_string("/time               - Server time"));
    v.push(to_string("=== CTCP ==="));
    v.push(to_string("/ctcp <n> <cmd>     - Send CTCP request"));
    v.push(to_string("/version <nick>     - Query version"));
    v.push(to_string("/ping <nick>        - Measure latency"));
    v.push(to_string("=== Connection ==="));
    v.push(to_string("/server <host:port> - Connect to server"));
    v.push(to_string("/disconnect         - Disconnect"));
    v.push(to_string("/reconnect          - Reconnect"));
    v.push(to_string("/away [message]     - Set away message"));
    v.push(to_string("/back               - Clear away status"));
    v.push(to_string("=== Utility ==="));
    v.push(to_string("/clear              - Clear window"));
    v.push(to_string("/lastlog <pattern>  - Search messages"));
    v.push(to_string("/history [#c] [n]  - Load server channel history"));
    v.push(to_string("/ignore [mask]      - List or add to ignore list"));
    v.push(to_string("/unignore <mask>    - Remove from ignore list"));
    v.push(to_string("/perform [cmd]      - View/add auto-perform"));
    v.push(to_string("/echo <text>        - Echo to window"));
    v.push(to_string("/raw <command>      - Send raw IRC"));
    v.push(to_string("/settings           - Open settings"));
    v.push(to_string("/slap <nick>        - Slap with trout"));
    v.push(to_string("=== Services ==="));
    v.push(to_string("/ns <command>       - NickServ message"));
    v.push(to_string("/cs <command>       - ChanServ message"));
    v.push(to_string("/ms <command>       - MemoServ message"));
    v.push(to_string("/hs <command>       - HostServ message"));
    v.push(to_string("/os <command>       - OperServ message"));
    v.push(to_string("/bs <command>       - BotServ message"));
    v.push(to_string("=== Advanced ==="));
    v.push(to_string("/umode [modes]      - Set/view user modes"));
    v.push(to_string("/silence [+/-mask]  - Server-side ignore"));
    v.push(to_string("/accept [nick]      - Callerid accept list"));
    v.push(to_string("/monitor + nicks    - Track online status"));
    v.push(to_string("=== Shortcuts ==="));
    v.push(to_string("Alt+1-9             - Switch tabs"));
    v.push(to_string("Ctrl+W              - Close tab"));
    v.push(to_string("Up/Down             - Command history"));
    v.push(to_string("Tab                 - Nick completion"));
    assert(views(v@) =~= spec_help_lines());
    v
}

} // verus!

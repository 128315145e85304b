use linefeed::client::{ClientAction, ClientSettings, ClientState, IncomingEvent};
use linefeed::slash::{CommandPlan, IrcCommand};
use linefeed::{CaseMapping, ChatMessage, ConnectionIntent};

type Action = ClientAction<String, Vec<String>>;

fn s(x: &str) -> String {
    x.to_string()
}

fn settings() -> ClientSettings {
    ClientSettings {
        nickname: s("me"),
        hide_join_part: false,
        ignore_list: vec![],
        highlight_words: s("rust"),
        auto_join: s("#a, b"),
        auto_perform: s("/msg NickServ hello\n\n/mode me +x"),
        set_invisible: true,
        auto_reconnect: true,
        reconnect_delay_secs: 5,
        max_reconnect_attempts: 10,
    }
}

fn offline() -> ClientState {
    ClientState::with_settings(settings())
}

fn online() -> ClientState {
    let mut st = offline();
    st.session.online = true;
    st.session.reconnect.connected = true;
    st
}

fn plan(st: &mut ClientState, p: CommandPlan<String, Vec<String>>) -> Vec<Action> {
    st.apply_plan_at(p, 1_700_000_000_000)
}

fn join(st: &mut ClientState, who: &str, channel: &str) {
    st.apply_incoming(&IncomingEvent::Join { sender: s(who), channel: s(channel), account: None, realname: None });
}

#[test]
fn settings_start_disconnected_with_default_support() {
    let st = offline();
    assert!(!st.session.online);
    assert_eq!(st.session.intent, ConnectionIntent::Idle);
    assert!(st.session.reconnect.auto_reconnect);
    assert_eq!(st.support.case_mapping, CaseMapping::Rfc1459);
    assert_eq!(st.support.channel_types, "#&+!");
    assert_eq!(st.support.prefix_modes, "qaohv");
}

#[test]
fn help_appends_the_help_lines_to_the_server_window_unlogged() {
    let mut st = online();
    join(&mut st, "me", "#a");
    let acts = plan(&mut st, CommandPlan::Help);
    assert_eq!(acts.len(), 78);
    assert_eq!(acts[0], ClientAction::NoteServerUnlogged(s("=== Basic Commands ===")));
    assert!(acts.iter().all(|a| matches!(a, ClientAction::NoteServerUnlogged(_))));
    assert_eq!(st.windows.len(), 1);
}

#[test]
fn actions_notices_and_messages_need_a_connection() {
    let mut st = online();
    assert_eq!(plan(&mut st, CommandPlan::Action { target: s("#a"), text: s("waves") }), vec![
        ClientAction::SendAction(s("#a"), s("waves")),
        ClientAction::Deliver { window: s("#a"), sender: s("me"), text: s("waves"), action: true, highlight: false },
    ]);
    assert_eq!(plan(&mut st, CommandPlan::Notice { target: s("bob"), text: s("hi") }), vec![
        ClientAction::SendNotice(s("bob"), s("hi")),
        ClientAction::NoteCurrent(s("-> -bob- hi")),
    ]);
    assert_eq!(plan(&mut st, CommandPlan::Notice { target: s("NickServ"), text: s("IDENTIFY secret") }), vec![
        ClientAction::SendNotice(s("NickServ"), s("IDENTIFY secret")),
        ClientAction::NoteCurrentUnlogged(s("-> -NickServ- <credential command sent>")),
    ]);
    assert_eq!(plan(&mut st, CommandPlan::Service { service: s("ChanServ"), text: s("op #a") }), vec![
        ClientAction::Message(s("ChanServ"), s("op #a")),
    ]);
    let mut off = offline();
    assert_eq!(plan(&mut off, CommandPlan::Action { target: s("#a"), text: s("waves") }), vec![
        ClientAction::NoteCurrent(s("Not connected - action not sent")),
    ]);
    assert_eq!(plan(&mut off, CommandPlan::Say { target: s("#a"), text: s("hi") }), vec![
        ClientAction::NoteCurrent(s("Not connected - message not sent")),
    ]);
    assert_eq!(plan(&mut off, CommandPlan::Notice { target: s("bob"), text: s("hi") }), vec![
        ClientAction::NoteCurrent(s("Not connected - notice not sent")),
    ]);
}

#[test]
fn broadcast_goes_to_every_channel_window() {
    let mut st = online();
    join(&mut st, "me", "#a");
    st.apply_plan(CommandPlan::Query { target: s("bob"), text: None });
    join(&mut st, "me", "#b");
    assert_eq!(plan(&mut st, CommandPlan::Broadcast { text: s("hello"), action: false }), vec![
        ClientAction::SendText(s("#a"), s("hello")),
        ClientAction::Deliver { window: s("#a"), sender: s("me"), text: s("hello"), action: false, highlight: false },
        ClientAction::SendText(s("#b"), s("hello")),
        ClientAction::Deliver { window: s("#b"), sender: s("me"), text: s("hello"), action: false, highlight: false },
    ]);
    let mut off = offline();
    assert_eq!(plan(&mut off, CommandPlan::Broadcast { text: s("x"), action: true }), vec![
        ClientAction::NoteCurrent(s("Not connected - action not sent")),
    ]);
}

#[test]
fn away_is_recorded_only_when_sent() {
    let mut st = online();
    join(&mut st, "me", "#a");
    let now = std::time::Instant::now();
    st.apply_numeric(353, &[s("me"), s("="), s("#a"), s("me bob")], false, now);
    st.apply_numeric(366, &[s("me"), s("#a"), s("End")], false, now);
    let acts = plan(&mut st, CommandPlan::Away(Some(s("lunch"))));
    assert_eq!(acts, vec![
        ClientAction::Send(IrcCommand::Away(Some(s("lunch")))),
        ClientAction::NoteServer(s("You are now marked as away: lunch")),
    ]);
    assert_eq!(st.session.away_status, Some(s("lunch")));
    assert_eq!(st.windows[0].1.get_user("me").expect("member").away, Some(s("lunch")));
    let acts = plan(&mut st, CommandPlan::Away(None));
    assert_eq!(acts[1], ClientAction::NoteServer(s("You are no longer marked as away")));
    assert_eq!(st.session.away_status, None);
    let mut off = offline();
    assert_eq!(plan(&mut off, CommandPlan::Away(Some(s("x")))), vec![
        ClientAction::NoteServer(s("Not connected - away status not changed")),
    ]);
    assert_eq!(off.session.away_status, None);
}

#[test]
fn quit_and_disconnect_drop_the_connection() {
    let mut st = online();
    join(&mut st, "me", "#a");
    st.session.channel_list_loading = true;
    let acts = plan(&mut st, CommandPlan::Quit(s("bye")));
    assert_eq!(acts, vec![ClientAction::Send(IrcCommand::Quit(Some(s("bye")))), ClientAction::CloseConnection]);
    assert!(!st.session.online);
    assert!(!st.session.reconnect.connected);
    assert!(!st.session.channel_list_loading);
    assert_eq!(st.session.intent, ConnectionIntent::ManualDisconnect);
    assert!(!st.windows[0].1.is_joined());
    assert!(st.session.reconnect.auto_reconnect);
    assert_eq!(plan(&mut st, CommandPlan::Disconnect(None)), vec![ClientAction::NoteServer(s("Not connected"))]);
    let mut st = online();
    let acts = plan(&mut st, CommandPlan::Disconnect(Some(s("later"))));
    assert_eq!(acts, vec![
        ClientAction::Send(IrcCommand::Quit(Some(s("later")))),
        ClientAction::CloseConnection,
        ClientAction::NoteServer(s("Disconnected from server")),
    ]);
}

#[test]
fn reconnect_closes_an_open_connection_or_starts_one() {
    let mut st = online();
    let acts = plan(&mut st, CommandPlan::Reconnect);
    assert_eq!(acts, vec![
        ClientAction::Send(IrcCommand::Quit(Some(s("Reconnecting")))),
        ClientAction::CloseConnection,
        ClientAction::NoteServer(s("Reconnecting...")),
    ]);
    assert_eq!(st.session.intent, ConnectionIntent::ReconnectAfterClose);
    let mut st = offline();
    let acts = plan(&mut st, CommandPlan::Reconnect);
    assert_eq!(acts, vec![ClientAction::StartConnect, ClientAction::NoteServer(s("Reconnecting..."))]);
    assert!(st.session.reconnect.connecting);
    assert_eq!(st.session.intent, ConnectionIntent::Idle);
}

#[test]
fn ctcp_requests_carry_their_payloads() {
    let mut st = online();
    assert_eq!(plan(&mut st, CommandPlan::CtcpPing(s("bob"))), vec![
        ClientAction::Send(IrcCommand::Privmsg(s("bob"), s("\u{1}PING 1700000000000\u{1}"))),
        ClientAction::NoteCurrent(s("[CTCP] Sent PING to bob")),
    ]);
    assert_eq!(plan(&mut st, CommandPlan::CtcpVersion(s("bob"))), vec![
        ClientAction::Send(IrcCommand::Privmsg(s("bob"), s("\u{1}VERSION\u{1}"))),
        ClientAction::NoteCurrent(s("[CTCP] Sent VERSION to bob")),
    ]);
    let mut off = offline();
    assert_eq!(plan(&mut off, CommandPlan::Ctcp { target: s("bob"), command: s("TIME"), payload: s("\u{1}TIME\u{1}") }),
        vec![ClientAction::NoteCurrent(s("CTCP request not sent (not connected or message too long)"))]);
}

#[test]
fn channel_list_requests_and_replies() {
    let mut st = online();
    assert_eq!(plan(&mut st, CommandPlan::ListChannels(Some(s(">4")))), vec![
        ClientAction::Send(IrcCommand::List(Some(s(">4")))),
        ClientAction::ResetChannelList,
    ]);
    assert!(st.session.channel_list_loading);
    let now = std::time::Instant::now();
    st.apply_numeric(321, &[s("me"), s("Channel"), s("Users Name")], false, now);
    let acts = st.apply_numeric(322, &[s("me"), s("#rust"), s("42"), s("Rust talk")], false, now);
    assert_eq!(acts, vec![ClientAction::ChannelListEntry { name: s("#rust"), users: 42, topic: s("Rust talk") }]);
    st.apply_numeric(323, &[s("me"), s("End of /LIST")], false, now);
    assert!(!st.session.channel_list_loading);
    let mut off = offline();
    assert_eq!(plan(&mut off, CommandPlan::ListChannels(None)), vec![
        ClientAction::NoteServer(s("Not connected - channel list was not refreshed")),
    ]);
}

#[test]
fn operator_commands() {
    let mut st = online();
    assert_eq!(plan(&mut st, CommandPlan::Kickban {
        channel: s("#a"),
        mask: s("bob!*@*"),
        kick: Some((s("bob"), Some(s("out")))),
    }), vec![
        ClientAction::Send(IrcCommand::Mode(s("#a"), Some(s("+b")), vec![s("bob!*@*")])),
        ClientAction::Send(IrcCommand::Kick(s("#a"), s("bob"), Some(s("out")))),
    ]);
    assert_eq!(plan(&mut st, CommandPlan::Kickban { channel: s("#a"), mask: s("*!*@h"), kick: None })[1],
        ClientAction::NoteCurrent(s("Ban set. /kickban with a hostmask cannot kick - use /kick <nick>.")));
    assert_eq!(plan(&mut st, CommandPlan::SetModes { channel: s("#a"), mode: s("+o"), nicks: vec![s("x"), s("y")] }),
        vec![
            ClientAction::Send(IrcCommand::Mode(s("#a"), Some(s("+o")), vec![s("x")])),
            ClientAction::Send(IrcCommand::Mode(s("#a"), Some(s("+o")), vec![s("y")])),
        ]);
    assert_eq!(plan(&mut st, CommandPlan::Invite { nick: s("bob"), channel: s("#a") }), vec![
        ClientAction::Send(IrcCommand::Invite(s("bob"), s("#a"))),
        ClientAction::NoteCurrent(s("Inviting bob to #a")),
    ]);
    assert_eq!(plan(&mut st, CommandPlan::Knock(s("#a"))), vec![
        ClientAction::Send(IrcCommand::Raw(s("KNOCK #a"))),
        ClientAction::NoteCurrent(s("Knocking on #a")),
    ]);
}

#[test]
fn ignore_commands_keep_the_keys_in_step() {
    let mut st = online();
    assert_eq!(plan(&mut st, CommandPlan::ShowIgnores), vec![ClientAction::NoteCurrent(s("Ignore list is empty"))]);
    assert_eq!(plan(&mut st, CommandPlan::Ignore(s("Bob[1]"))), vec![
        ClientAction::NoteCurrent(s("Now ignoring: Bob[1]")),
        ClientAction::SaveSettings,
    ]);
    assert_eq!(st.ignore_list, vec![s("Bob[1]")]);
    assert_eq!(st.ignore_keys, vec![s("bob{1}")]);
    assert_eq!(plan(&mut st, CommandPlan::Ignore(s("bob{1}"))), vec![
        ClientAction::NoteCurrent(s("Already ignoring: bob{1}")),
    ]);
    assert_eq!(plan(&mut st, CommandPlan::ShowIgnores), vec![
        ClientAction::NoteCurrent(s("Ignored users/masks:")),
        ClientAction::NoteCurrent(s("  1. Bob[1]")),
    ]);
    assert_eq!(plan(&mut st, CommandPlan::Unignore(s("BOB[1]"))), vec![
        ClientAction::NoteCurrent(s("No longer ignoring: BOB[1]")),
        ClientAction::SaveSettings,
    ]);
    assert!(st.ignore_list.is_empty() && st.ignore_keys.is_empty());
    assert_eq!(plan(&mut st, CommandPlan::Unignore(s("x"))), vec![ClientAction::NoteCurrent(s("Not in ignore list: x"))]);
}

#[test]
fn perform_commands() {
    let mut st = online();
    let acts = plan(&mut st, CommandPlan::ShowPerform);
    assert_eq!(acts[0], ClientAction::NoteCurrentUnlogged(s("Auto-perform commands:")));
    assert_eq!(acts.len(), 3);
    assert_eq!(plan(&mut st, CommandPlan::ClearPerform), vec![
        ClientAction::SaveSettings,
        ClientAction::NoteCurrent(s("Auto-perform commands cleared.")),
    ]);
    assert_eq!(plan(&mut st, CommandPlan::ShowPerform), vec![
        ClientAction::NoteCurrent(s("No auto-perform commands set. Use /perform <command> to add.")),
    ]);
    plan(&mut st, CommandPlan::AddPerform(s("/join #x")));
    plan(&mut st, CommandPlan::AddPerform(s("/join #y")));
    assert_eq!(st.session.auto_perform, "/join #x\n/join #y");
}

#[test]
fn clear_lastlog_settings_and_server_plans() {
    let mut st = online();
    join(&mut st, "me", "#a");
    st.current = Some(s("#a"));
    st.windows[0].1.push_trimmed(ChatMessage::new_fmt("bob", "rust is fun", "short", 0), 100);
    st.windows[0].1.push_trimmed(ChatMessage::new_fmt("bob", "other", "short", 0), 100);
    let acts = plan(&mut st, CommandPlan::Lastlog(s("RUST")));
    assert_eq!(acts.len(), 3);
    assert_eq!(acts[0], ClientAction::NoteCurrentUnlogged(s("Searching for: RUST")));
    assert_eq!(acts[2], ClientAction::NoteCurrentUnlogged(s("Found 1 matches")));
    assert!(plan(&mut st, CommandPlan::Clear).is_empty());
    assert!(st.windows[0].1.messages.is_empty());
    st.current = None;
    assert_eq!(plan(&mut st, CommandPlan::Clear), vec![ClientAction::ClearServer]);
    assert_eq!(plan(&mut st, CommandPlan::Lastlog(s("x"))), vec![ClientAction::LastlogServer(s("x"))]);
    assert_eq!(plan(&mut st, CommandPlan::Settings), vec![ClientAction::OpenSettings]);
    assert_eq!(plan(&mut st, CommandPlan::Server { host: s("irc.example.org"), port: Some(s("6697")) }), vec![
        ClientAction::SwitchServer { host: s("irc.example.org"), port: Some(s("6697")) },
    ]);
    assert_eq!(plan(&mut st, CommandPlan::History { target: s("#a"), limit: Some(20) }), vec![
        ClientAction::RequestHistory { target: s("#a"), limit: Some(20) },
    ]);
    assert!(plan(&mut st, CommandPlan::Nothing).is_empty());
}

#[test]
fn welcome_registers_joins_and_queues_perform() {
    let mut st = offline();
    st.session.online = true;
    st.session.reconnect.connecting = true;
    st.session.reconnect.reconnect_attempts = 3;
    st.session.nick_retry_attempts = 2;
    let now = std::time::Instant::now();
    let acts = st.apply_numeric(1, &[s("me_"), s("Welcome to IRC")], false, now);
    assert_eq!(acts, vec![
        ClientAction::NoteServer(s("Welcome to IRC")),
        ClientAction::Send(IrcCommand::Mode(s("me_"), Some(s("+i")), vec![])),
        ClientAction::NoteServer(s("Setting user mode +i (invisible)")),
        ClientAction::Send(IrcCommand::Join(s("#a"), None)),
        ClientAction::NoteServer(s("Auto-joining #a")),
        ClientAction::Send(IrcCommand::Join(s("#b"), None)),
        ClientAction::NoteServer(s("Auto-joining #b")),
        ClientAction::RunPerform(vec![s("/msg NickServ hello"), s("/mode me +x")]),
        ClientAction::NoteServer(s("Running auto-perform commands...")),
        ClientAction::StartLagCheck,
        ClientAction::Send(IrcCommand::Ping(s("LAG"))),
    ]);
    assert_eq!(st.my_nick, "me_");
    assert!(st.session.reconnect.connected && !st.session.reconnect.connecting);
    assert_eq!(st.session.reconnect.reconnect_attempts, 0);
    assert_eq!(st.session.nick_retry_attempts, 0);
}

#[test]
fn isupport_case_mapping_follows_into_channels_and_keys() {
    let mut st = offline();
    st.ignore_list = vec![s("Bob[1]")];
    st.ignore_keys = vec![s("bob{1}")];
    join(&mut st, "me", "#a");
    let now = std::time::Instant::now();
    let acts = st.apply_numeric(5, &[s("me"), s("CASEMAPPING=ascii"), s("PREFIX=(ov)@+"), s("are supported")], false, now);
    assert!(acts.is_empty());
    assert_eq!(st.support.case_mapping, CaseMapping::Ascii);
    assert_eq!(st.support.prefix_modes, "ov");
    assert_eq!(st.ignore_keys, vec![s("bob[1]")]);
    assert_eq!(st.highlight_keys, vec![s("rust")]);
}

#[test]
fn nick_in_use_retries_then_fails_registration() {
    let mut st = offline();
    st.session.online = true;
    let now = std::time::Instant::now();
    let acts = st.apply_numeric(433, &[s("*"), s("me"), s("Nickname is already in use")], false, now);
    assert_eq!(acts, vec![
        ClientAction::Send(IrcCommand::Nick(s("me_"))),
        ClientAction::NoteServer(s("Nickname in use, trying alternative...")),
    ]);
    assert_eq!(st.my_nick, "me_");
    st.session.nick_retry_attempts = 3;
    let acts = st.apply_numeric(433, &[s("*"), s("me_"), s("Nickname is already in use")], false, now);
    assert_eq!(acts, vec![
        ClientAction::NoteServer(s("Registration failed: Nickname is already in use")),
        ClientAction::Send(IrcCommand::Quit(Some(s("Registration failed")))),
        ClientAction::CloseConnection,
    ]);
    assert_eq!(st.session.intent, ConnectionIntent::ManualDisconnect);
    assert!(!st.session.online);
}

#[test]
fn registration_errors_and_motd() {
    let mut st = offline();
    let now = std::time::Instant::now();
    let acts = st.apply_numeric(464, &[s("*"), s("Password incorrect")], false, now);
    assert_eq!(acts, vec![
        ClientAction::NoteServer(s("Registration failed: Password incorrect")),
        ClientAction::CloseConnection,
    ]);
    st.session.reconnect.connected = true;
    let acts = st.apply_numeric(432, &[s("me"), s("b@d"), s("Erroneous nickname")], false, now);
    assert_eq!(acts, vec![ClientAction::NoteServer(s("[432] Erroneous nickname"))]);
    let acts = st.apply_numeric(372, &[s("me"), s("- hello -")], false, now);
    assert_eq!(acts, vec![ClientAction::NoteServer(s("- hello -"))]);
}

#[test]
fn query_windows_open_until_the_cap() {
    let mut st = offline();
    for i in 0..200 {
        assert_eq!(st.open_window(&format!("nick{i}")), Some(i));
    }
    assert_eq!(st.open_window("nick0"), Some(0));
    assert_eq!(st.open_window("late"), None);
    assert_eq!(st.open_window("#chan"), Some(200));
    st.current = None;
    assert_eq!(st.open_current(), None);
}

#[test]
fn lost_connection_is_retried_after_the_backoff() {
    let mut st = online();
    join(&mut st, "me", "#a");
    st.mark_connection_lost();
    assert!(!st.session.online);
    assert!(st.session.reconnect.connection_lost);
    assert!(!st.session.reconnect.connected);
    let i = st.find_window("#a").unwrap();
    assert!(!st.windows[i].1.is_joined());

    // First retry waits 5 s (base 5, no attempts yet).
    assert!(st.reconnect_if_due(Some(4)).is_empty());
    assert_eq!(st.session.reconnect.reconnect_attempts, 0);
    let acts = st.reconnect_if_due(Some(5));
    assert_eq!(st.session.reconnect.reconnect_attempts, 1);
    assert!(st.session.reconnect.connecting);
    assert!(!st.session.reconnect.connection_lost);
    assert!(matches!(acts[0], ClientAction::StartConnect));
    match &acts[1] {
        ClientAction::NoteServer(t) => assert_eq!(t, "Reconnecting... (attempt 1, next retry in 10s)"),
        _ => panic!("expected a server note"),
    }
    // An attempt under way is not started twice.
    assert!(st.reconnect_if_due(None).is_empty());
}

#[test]
fn manual_disconnect_is_never_retried() {
    let mut st = online();
    st.request_manual_disconnect(None);
    assert!(st.reconnect_if_due(None).is_empty());
    assert!(st.reconnect_if_due(Some(1000)).is_empty());
    assert!(st.session.reconnect.auto_reconnect);
}

use linefeed::client::{ClientAction, ClientSettings, ClientState, IncomingEvent};
use linefeed::slash::{CommandPlan, IrcCommand};

type Action = ClientAction<String, Vec<String>>;

fn s(x: &str) -> String {
    x.to_string()
}

fn settings(nick: &str, hide: bool, ignore: Vec<String>, words: &str) -> ClientSettings {
    ClientSettings {
        nickname: s(nick),
        hide_join_part: hide,
        ignore_list: ignore,
        highlight_words: s(words),
        auto_join: String::new(),
        auto_perform: String::new(),
        set_invisible: false,
        auto_reconnect: true,
        reconnect_delay_secs: 5,
        max_reconnect_attempts: 10,
    }
}

fn state() -> ClientState {
    ClientState::with_settings(settings("me", false, vec![s("spammer")], "rust, verus"))
}

/// A state registered on an open connection.
fn online() -> ClientState {
    let mut st = state();
    st.session.online = true;
    st.session.reconnect.connected = true;
    st
}

fn join(st: &mut ClientState, who: &str, channel: &str) -> Vec<Action> {
    st.apply_incoming(&IncomingEvent::Join { sender: s(who), channel: s(channel), account: None, realname: None })
}

fn window<'a>(st: &'a ClientState, name: &str) -> &'a linefeed::Channel {
    &st.windows.iter().find(|w| w.0 == name).expect("window open").1
}

#[test]
fn settings_give_the_configured_nick_and_keys() {
    let st = state();
    assert_eq!(st.my_nick, "me");
    assert!(st.windows.is_empty());
    assert_eq!(st.current, None);
    assert_eq!(st.ignore_keys, vec![s("spammer")]);
    assert_eq!(st.highlight_keys, vec![s("rust"), s("verus")]);
}

#[test]
fn empty_nick_setting_draws_a_numbered_default() {
    let st = ClientState::with_settings(settings("", true, vec![], ""));
    assert!(st.my_nick.starts_with("Linefeed_"));
    let digits = &st.my_nick["Linefeed_".len()..];
    assert!(!digits.is_empty() && digits.len() <= 4);
    assert!(digits.chars().all(|c| c.is_ascii_digit()));
    assert!(st.hide_join_part);
}

#[test]
fn own_join_opens_and_focuses_the_channel() {
    let mut st = state();
    let acts = join(&mut st, "me", "#rust");
    assert_eq!(acts, vec![ClientAction::Focus(s("#rust")), ClientAction::NoteIn(s("#rust"), s("Now talking in #rust"))]);
    assert_eq!(st.windows.len(), 1);
    assert!(window(&st, "#rust").is_joined());
}

#[test]
fn others_join_and_part_update_the_member_list() {
    let mut st = state();
    join(&mut st, "me", "#rust");
    let acts = st.apply_incoming(&IncomingEvent::Join {
        sender: s("bob"),
        channel: s("#rust"),
        account: Some(s("bobacct")),
        realname: Some(s("Bob B")),
    });
    assert_eq!(acts, vec![ClientAction::NoteIn(s("#rust"), s("bob (Bob B) [bobacct] has joined #rust"))]);
    assert!(window(&st, "#rust").has_user("bob"));
    let acts = st.apply_incoming(&IncomingEvent::Part { sender: s("bob"), channel: s("#rust"), reason: Some(s("bye")) });
    assert_eq!(acts, vec![ClientAction::NoteIn(s("#rust"), s("bob has left #rust (bye)"))]);
    assert!(!window(&st, "#rust").has_user("bob"));
}

#[test]
fn hidden_join_part_lines_still_track_members() {
    let mut st = ClientState::with_settings(settings("me", true, vec![], ""));
    join(&mut st, "me", "#rust");
    assert!(join(&mut st, "bob", "#rust").is_empty());
    assert!(window(&st, "#rust").has_user("bob"));
}

#[test]
fn own_part_closes_the_window_and_moves_focus() {
    let mut st = state();
    join(&mut st, "me", "#a");
    join(&mut st, "me", "#b");
    st.current = Some(s("#b"));
    let acts = st.apply_incoming(&IncomingEvent::Part { sender: s("me"), channel: s("#B"), reason: None });
    assert!(acts.is_empty());
    assert_eq!(st.windows.len(), 1);
    assert_eq!(st.current, Some(s("#a")));
}

#[test]
fn kick_of_us_leaves_the_window_unjoined() {
    let mut st = state();
    join(&mut st, "me", "#rust");
    join(&mut st, "bob", "#rust");
    let acts = st.apply_incoming(&IncomingEvent::Kick {
        sender: s("op"),
        channel: s("#rust"),
        kicked: s("me"),
        reason: Some(s("out")),
    });
    assert_eq!(acts, vec![ClientAction::NoteIn(s("#rust"), s("You were kicked from #rust by op (out)"))]);
    let ch = window(&st, "#rust");
    assert!(!ch.is_joined());
    assert!(!ch.has_user("bob"));
}

#[test]
fn topic_change_is_stored_and_noted() {
    let mut st = state();
    join(&mut st, "me", "#rust");
    let acts = st.apply_incoming(&IncomingEvent::Topic { sender: Some(s("bob")), channel: s("#rust"), topic: Some(s("hello")) });
    assert_eq!(acts, vec![ClientAction::NoteIn(s("#rust"), s("bob changed the topic to: hello"))]);
    assert_eq!(window(&st, "#rust").topic, Some(s("hello")));
}

#[test]
fn private_message_routes_to_the_sender_with_a_notification() {
    let mut st = state();
    let acts = st.apply_incoming(&IncomingEvent::Privmsg { sender: s("bob"), prefix: None, target: s("me"), text: s("hi") });
    assert_eq!(acts, vec![
        ClientAction::Notify { title: s("PM from bob"), body: s("hi"), force: true },
        ClientAction::Deliver { window: s("bob"), sender: s("bob"), text: s("hi"), action: false, highlight: false },
    ]);
}

#[test]
fn channel_message_with_highlight_word_notifies_unforced() {
    let mut st = state();
    let acts = st.apply_incoming(&IncomingEvent::Privmsg {
        sender: s("bob"),
        prefix: None,
        target: s("@#rust"),
        text: s("\u{1}ACTION likes verus\u{1}"),
    });
    assert_eq!(acts, vec![
        ClientAction::Notify {
            title: s("bob mentioned you in #rust"),
            body: s("\u{1}ACTION likes verus\u{1}"),
            force: false,
        },
        ClientAction::Deliver { window: s("#rust"), sender: s("bob"), text: s("likes verus"), action: true, highlight: true },
    ]);
}

#[test]
fn ignored_sender_and_ctcp_requests() {
    let mut st = state();
    let acts = st.apply_incoming(&IncomingEvent::Privmsg { sender: s("Spammer"), prefix: None, target: s("#rust"), text: s("buy") });
    assert!(acts.is_empty());
    let acts = st.apply_incoming(&IncomingEvent::Privmsg {
        sender: s("bob"),
        prefix: None,
        target: s("me"),
        text: s("\u{1}VERSION\u{1}"),
    });
    assert_eq!(acts, vec![ClientAction::CtcpRequest(s("bob"), s("\u{1}VERSION\u{1}"))]);
}

#[test]
fn quit_removes_the_member_everywhere() {
    let mut st = state();
    join(&mut st, "me", "#a");
    join(&mut st, "me", "#b");
    join(&mut st, "me", "#c");
    join(&mut st, "bob", "#a");
    join(&mut st, "bob", "#c");
    let acts = st.apply_incoming(&IncomingEvent::Quit { sender: s("bob"), reason: None });
    assert_eq!(acts, vec![
        ClientAction::NoteIn(s("#a"), s("bob has quit (Quit)")),
        ClientAction::NoteIn(s("#c"), s("bob has quit (Quit)")),
    ]);
    assert!(!window(&st, "#a").has_user("bob"));
    assert!(!window(&st, "#c").has_user("bob"));
}

#[test]
fn nick_change_renames_members_our_nick_and_the_query() {
    let mut st = state();
    join(&mut st, "me", "#a");
    join(&mut st, "bob", "#a");
    st.apply_plan(CommandPlan::Query { target: s("bob"), text: None });
    assert_eq!(st.current, Some(s("bob")));
    let acts = st.apply_incoming(&IncomingEvent::Nick { sender: s("bob"), nick: s("robert") });
    assert_eq!(acts, vec![
        ClientAction::NoteIn(s("#a"), s("bob is now known as robert")),
        ClientAction::NoteIn(s("robert"), s("bob is now known as robert")),
    ]);
    assert!(window(&st, "#a").has_user("robert"));
    assert!(!window(&st, "#a").has_user("bob"));
    assert_eq!(st.windows[1].0, "robert");
    assert_eq!(st.current, Some(s("robert")));
    st.apply_incoming(&IncomingEvent::Nick { sender: s("ME"), nick: s("me2") });
    assert_eq!(st.my_nick, "me2");
}

#[test]
fn topic_numerics_fill_the_window() {
    let mut st = state();
    join(&mut st, "me", "#rust");
    let now = std::time::Instant::now();
    let acts = st.apply_numeric(332, &[s("me"), s("#rust"), s("the topic")], false, now);
    assert_eq!(acts, vec![ClientAction::NoteIn(s("#rust"), s("Topic: the topic"))]);
    assert_eq!(window(&st, "#rust").topic, Some(s("the topic")));
    let acts = st.apply_numeric(999, &[s("me"), s("#rust"), s("x")], false, now);
    assert_eq!(acts, vec![ClientAction::NoteCurrent(s("[999] #rust x"))]);
    assert!(st.apply_numeric(332, &[s("me"), s("#rust")], false, now).is_empty());
}

#[test]
fn names_then_end_of_names_lists_members_and_asks_who() {
    let mut st = state();
    join(&mut st, "me", "#rust");
    let now = std::time::Instant::now();
    let acts = st.apply_numeric(353, &[s("me"), s("="), s("#rust"), s("@alice +bob me")], false, now);
    assert!(acts.is_empty());
    let acts = st.apply_numeric(366, &[s("me"), s("#rust"), s("End of /NAMES list.")], false, now);
    assert_eq!(acts, vec![ClientAction::Send(IrcCommand::Who(s("#rust")))]);
    let ch = window(&st, "#rust");
    assert!(ch.has_user("alice"));
    assert!(ch.has_user("bob"));
}

#[test]
fn plans_query_cycle_and_close() {
    let mut st = online();
    let acts = st.apply_plan(CommandPlan::Query { target: s("bob"), text: Some(s("hey")) });
    assert_eq!(acts, vec![
        ClientAction::NoteIn(s("bob"), s("Conversation with bob")),
        ClientAction::Message(s("bob"), s("hey")),
    ]);
    let acts = st.apply_plan(CommandPlan::Query { target: s("#chan"), text: None });
    assert_eq!(acts, vec![ClientAction::NoteServer(s("Unable to open query window"))]);
    join(&mut st, "me", "#rust");
    let acts = st.apply_plan(CommandPlan::Cycle(s("#rust")));
    assert_eq!(acts, vec![
        ClientAction::Send(IrcCommand::Part(s("#rust"), Some(s("Cycling")))),
        ClientAction::Send(IrcCommand::Join(s("#rust"), None)),
    ]);
    st.current = Some(s("#rust"));
    let acts = st.apply_plan(CommandPlan::Close);
    assert_eq!(acts, vec![ClientAction::Send(IrcCommand::Part(s("#rust"), None))]);
    st.current = Some(s("bob"));
    assert!(st.apply_plan(CommandPlan::Close).is_empty());
    assert_eq!(st.windows.len(), 1);
    assert_eq!(st.current, Some(s("#rust")));
    let acts = st.apply_plan(CommandPlan::Say { target: s("#rust"), text: s("hi") });
    assert_eq!(acts, vec![ClientAction::Message(s("#rust"), s("hi"))]);
}

#[test]
fn mode_changes_member_status_and_channel_modes() {
    let mut st = state();
    join(&mut st, "me", "#rust");
    join(&mut st, "bob", "#rust");
    let acts = st.apply_incoming(&IncomingEvent::Mode {
        sender: s("op"),
        target: s("#rust"),
        modes: Some(s("+ot")),
        params: vec![s("bob")],
    });
    assert_eq!(acts, vec![ClientAction::NoteIn(s("#rust"), s("op set mode +ot bob"))]);
    let ch = window(&st, "#rust");
    assert!(ch.get_user("bob").expect("member").has_mode(linefeed::UserMode::Op));
    assert!(ch.modes.contains('t'));
    let acts = st.apply_incoming(&IncomingEvent::Mode { sender: s("me"), target: s("me"), modes: Some(s("+i")), params: vec![] });
    assert_eq!(acts, vec![ClientAction::NoteServer(s("me set user mode +i"))]);
    let acts = st.apply_incoming(&IncomingEvent::Mode { sender: s("op"), target: s("#rust"), modes: None, params: vec![] });
    assert!(acts.is_empty());
}

#[test]
fn ban_list_entries_are_upserted() {
    let mut st = state();
    join(&mut st, "me", "#rust");
    let now = std::time::Instant::now();
    st.apply_numeric(367, &[s("me"), s("#rust"), s("*!*@bad"), s("op"), s("100")], false, now);
    st.apply_numeric(367, &[s("me"), s("#rust"), s("*!*@BAD"), s("op2"), s("200")], false, now);
    st.apply_numeric(367, &[s("me"), s("#rust"), s("*!*@other"), s("op"), s("x")], false, now);
    let ch = window(&st, "#rust");
    assert_eq!(ch.bans.len(), 2);
    assert_eq!(ch.bans[0].mask, "*!*@bad");
    assert_eq!(ch.bans[0].set_by, "op2");
    assert_eq!(ch.bans[0].set_time, 200);
    assert_eq!(ch.bans[1].set_time, 0);
    st.apply_numeric(368, &[s("me"), s("#rust"), s("End of channel ban list")], false, now);
    assert!(window(&st, "#rust").ban_list_complete);
}

#[test]
fn text_numerics_show_their_lines_and_others_are_left_to_the_caller() {
    let mut st = state();
    let now = std::time::Instant::now();
    let acts = st.apply_numeric(311, &[s("me"), s("bob"), s("u"), s("host"), s("*"), s("Bob B")], false, now);
    assert_eq!(acts, vec![ClientAction::NoteCurrent(s("[WHOIS] bob (u@host) - Bob B"))]);
    let acts = st.apply_numeric(305, &[s("me"), s("You are no longer marked as being away")], false, now);
    assert_eq!(acts, vec![ClientAction::NoteServer(s("You are no longer marked as being away"))]);
    assert!(st.apply_numeric(315, &[s("me"), s("#rust"), s("End of WHO")], false, now).is_empty());
}

#[test]
fn who_reply_marks_members_away_or_back() {
    let mut st = state();
    join(&mut st, "me", "#rust");
    join(&mut st, "bob", "#rust");
    let now = std::time::Instant::now();
    st.apply_numeric(352, &[s("me"), s("#rust"), s("u"), s("h"), s("srv"), s("bob"), s("G"), s("0 Bob")], false, now);
    assert_eq!(window(&st, "#rust").get_user("bob").expect("member").away, Some(s("Away")));
    st.apply_numeric(352, &[s("me"), s("#rust"), s("u"), s("h"), s("srv"), s("bob"), s("H@"), s("0 Bob")], false, now);
    assert_eq!(window(&st, "#rust").get_user("bob").expect("member").away, None);
}

#[test]
fn numerics_applied_as_they_arrive_read_the_clock() {
    let mut st = state();
    join(&mut st, "me", "#rust");
    assert!(st.apply_numeric_now(353, &[s("me"), s("="), s("#rust"), s("alice")]).is_empty());
    assert_eq!(
        st.apply_numeric_now(366, &[s("me"), s("#rust"), s("End")]),
        vec![ClientAction::Send(IrcCommand::Who(s("#rust")))]
    );
    assert!(window(&st, "#rust").has_user("alice"));
}

fn notice(sender: &str, prefix: Option<&str>, target: &str, text: &str, echo: bool, connected: bool) -> IncomingEvent<String, Vec<String>> {
    IncomingEvent::Notice {
        sender: s(sender),
        prefix: prefix.map(s),
        target: s(target),
        text: s(text),
        echo_message: echo,
        connected,
        now_ms: 1_000_250,
    }
}

#[test]
fn notices_route_to_the_sender_channel_or_server_window() {
    let mut st = state();
    let acts = st.apply_incoming(&notice("NickServ", Some("NickServ!s@services"), "me", "Identified", false, true));
    assert_eq!(acts, vec![ClientAction::NoteIn(s("NickServ"), s("-NickServ- Identified"))]);
    let acts = st.apply_incoming(&notice("op", Some("op!o@h"), "@#rust", "ops only", false, true));
    assert_eq!(acts, vec![ClientAction::NoteIn(s("#rust"), s("-op- ops only"))]);
    let acts = st.apply_incoming(&notice("irc.server", None, "*", "Looking up your hostname", false, false));
    assert_eq!(acts, vec![ClientAction::NoteServer(s("-irc.server- Looking up your hostname"))]);
    assert!(st.apply_incoming(&notice("me", Some("me!m@h"), "#rust", "hi", true, true)).is_empty());
    assert!(st.apply_incoming(&notice("spammer", Some("spammer!x@y"), "me", "buy", false, true)).is_empty());
    assert!(st.windows.is_empty());
}

#[test]
fn ctcp_ping_reply_shows_the_latency() {
    let mut st = state();
    let acts = st.apply_incoming(&notice("bob", Some("bob!b@h"), "me", "\u{1}PING 1000000\u{1}", false, true));
    assert_eq!(acts, vec![ClientAction::NoteCurrent(s("[CTCP PING reply] bob - 250ms"))]);
    let acts = st.apply_incoming(&notice("bob", Some("bob!b@h"), "me", "\u{1}VERSION x 1.0\u{1}", false, true));
    assert_eq!(acts, vec![ClientAction::NoteCurrent(s("[CTCP VERSION reply] bob - x 1.0"))]);
}

#[test]
fn away_notify_updates_every_window_and_notes_once() {
    let mut st = state();
    join(&mut st, "me", "#a");
    join(&mut st, "me", "#b");
    join(&mut st, "bob", "#a");
    join(&mut st, "bob", "#b");
    let acts = st.apply_incoming(&IncomingEvent::Away { sender: s("bob"), message: Some(s("lunch")) });
    assert_eq!(acts, vec![ClientAction::NoteIn(s("#a"), s("bob is now away: lunch"))]);
    assert_eq!(window(&st, "#b").get_user("bob").expect("member").away, Some(s("lunch")));
    let acts = st.apply_incoming(&IncomingEvent::Away { sender: s("bob"), message: None });
    assert_eq!(acts, vec![ClientAction::NoteIn(s("#a"), s("bob is back"))]);
    assert_eq!(window(&st, "#a").get_user("bob").expect("member").away, None);
}

#[test]
fn invites_are_kept_bounded_and_announced() {
    let mut st = state();
    let acts = st.apply_incoming(&IncomingEvent::Invite { sender: s("bob"), target: s("me"), channel: s("#secret") });
    assert_eq!(acts, vec![
        ClientAction::NoteServer(s("*** bob has invited you to #secret - type /join #secret to accept")),
        ClientAction::Notify { title: s("Channel Invite"), body: s("bob invited you to #secret"), force: false },
    ]);
    assert_eq!(st.pending_invites, vec![(s("bob"), s("#secret"))]);
    for i in 0..70 {
        st.apply_incoming(&IncomingEvent::Invite { sender: format!("u{i}"), target: s("ME"), channel: s("#c") });
    }
    assert_eq!(st.pending_invites.len(), 64);
    assert_eq!(st.pending_invites[63], (s("u69"), s("#c")));
    assert_eq!(st.pending_invites[0], (s("u6"), s("#c")));
    let acts = st.apply_incoming(&IncomingEvent::Invite { sender: s("bob"), target: s("carol"), channel: s("#x") });
    assert_eq!(acts, vec![ClientAction::NoteIn(s("#x"), s("bob invited carol to #x"))]);
}

#[test]
fn account_realname_and_host_changes() {
    let mut st = state();
    join(&mut st, "me", "#a");
    join(&mut st, "me", "#b");
    join(&mut st, "bob", "#b");
    let acts = st.apply_incoming(&IncomingEvent::Account { sender: s("bob"), account: s("bobby") });
    assert_eq!(acts, vec![ClientAction::NoteIn(s("#b"), s("bob has logged in as bobby"))]);
    assert_eq!(window(&st, "#b").get_user("bob").expect("member").account, Some(s("bobby")));
    let acts = st.apply_incoming(&IncomingEvent::Account { sender: s("bob"), account: s("*") });
    assert_eq!(acts, vec![ClientAction::NoteIn(s("#b"), s("bob has logged out"))]);
    assert_eq!(window(&st, "#b").get_user("bob").expect("member").account, None);
    let acts = st.apply_incoming(&IncomingEvent::Setname { sender: s("bob"), realname: s("Robert") });
    assert_eq!(acts, vec![ClientAction::NoteIn(s("#b"), s("bob changed their realname to Robert"))]);
    assert_eq!(window(&st, "#b").get_user("bob").expect("member").realname, Some(s("Robert")));
    let acts = st.apply_incoming(&IncomingEvent::Chghost { sender: s("bob"), user: s("rob"), host: s("new.host") });
    assert_eq!(acts, vec![ClientAction::NoteIn(s("#b"), s("bob changed host to rob@new.host"))]);
    assert!(st.apply_incoming(&IncomingEvent::Chghost { sender: s("zed"), user: s("z"), host: s("h") }).is_empty());
}

#[test]
fn status_messages_and_read_markers() {
    let mut st = state();
    join(&mut st, "me", "#rust");
    let acts = st.apply_incoming(&IncomingEvent::StatusMessage {
        sender: s("op"),
        status: '@',
        target: s("@#rust"),
        text: s("meeting"),
    });
    assert_eq!(acts, vec![ClientAction::NoteIn(s("#rust"), s("-op/ops- meeting"))]);
    let acts = st.apply_incoming(&IncomingEvent::Markread { target: s("#RUST"), timestamp: Some(s("timestamp=2024")) });
    assert!(acts.is_empty());
    assert_eq!(window(&st, "#rust").read_marker, Some(s("timestamp=2024")));
}

#[test]
fn reactions_standard_replies_and_redactions() {
    let mut st = state();
    join(&mut st, "me", "#rust");
    let acts = st.apply_incoming(&IncomingEvent::Reaction {
        sender: s("bob"),
        target: s("me"),
        reaction: s("+1"),
        reply_to: Some(s("abc")),
    });
    assert_eq!(acts, vec![ClientAction::NoteIn(s("bob"), s("bob reacted +1 to abc"))]);
    let acts = st.apply_incoming(&IncomingEvent::StandardReply {
        kind: s("FAIL"),
        command: s("JOIN"),
        code: s("CHANNEL_FULL"),
        context: vec![s("#rust")],
        description: s("Channel is full"),
    });
    assert_eq!(acts, vec![ClientAction::NoteIn(s("#rust"), s("[FAIL JOIN/CHANNEL_FULL] #rust: Channel is full"))]);
    let acts = st.apply_incoming(&IncomingEvent::StandardReply {
        kind: s("NOTE"),
        command: s("*"),
        code: s("X"),
        context: vec![],
        description: s("hello"),
    });
    assert_eq!(acts, vec![ClientAction::NoteServer(s("[NOTE */X] hello"))]);
    let msg = linefeed::ChatMessage::new_fmt("bob", "spam", "short", 0).with_irc_metadata(None, Some(s("m1")), None);
    st.windows[0].1.push_trimmed(msg, 100);
    let acts = st.apply_incoming(&IncomingEvent::Redact { target: s("#rust"), msgid: s("m1"), reason: Some(s("spam")) });
    assert_eq!(acts, vec![ClientAction::NoteIn(s("#rust"), s("A message was redacted: spam"))]);
    assert!(window(&st, "#rust").messages.is_empty());
    let acts = st.apply_incoming(&IncomingEvent::Redact { target: s("#rust"), msgid: s("m2"), reason: None });
    assert_eq!(acts, vec![ClientAction::NoteIn(s("#rust"), s("Message m2 was redacted"))]);
}

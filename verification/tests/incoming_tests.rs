use linefeed::incoming::{
    action_text, ctcp_reply_note, join_note, kick_note, nick_in_use, nick_note, notice_window, part_note,
    privmsg_notification, privmsg_window, quit_note, reaction_text, reaction_window, redaction_note,
    registration_error, standard_reply_text, standard_reply_window, status_message_text, idle_text, numeric_line,
    topic_set_note, NumericKind, RegistrationReply,
};
use linefeed::{Channel, ChatMessage, NetworkSupport, UserMode};

fn s(x: &str) -> String {
    x.to_string()
}

#[test]
fn private_reaction_routes_to_the_senders_query() {
    let support = NetworkSupport::default();
    assert_eq!(reaction_window(&support, "me", "alice", "me"), "alice");
    assert!(reaction_text("alice", "👍", Some("abc")).contains("reacted 👍 to abc"));
    assert_eq!(reaction_window(&support, "me", "alice", "@#room"), "#room");
    assert_eq!(reaction_text("bob", "🎉", None), "bob reacted 🎉");
}

#[test]
fn standard_reply_uses_its_channel_context() {
    let support = NetworkSupport::default();
    let context = vec![s("#room")];
    assert_eq!(standard_reply_window(&context, &support), Some(s("#room")));
    let text = standard_reply_text("FAIL", "CHATHISTORY", "INVALID_TARGET", &context, "No history");
    assert!(text.contains("INVALID_TARGET"));
    assert_eq!(text, "[FAIL CHATHISTORY/INVALID_TARGET] #room: No history");
    assert_eq!(standard_reply_text("NOTE", "X", "Y", &[], "done"), "[NOTE X/Y] done");
    assert_eq!(standard_reply_window(&[s("a b"), s("c #d")], &support), Some(s("#d")));
    assert_eq!(standard_reply_window(&[s("nothing here")], &support), None);
}

#[test]
fn live_redaction_removes_the_identified_message() {
    let mut channel = Channel::new();
    channel.push_trimmed(
        ChatMessage::new_fmt("alice", "remove me", "short", 0).with_irc_metadata(None, Some(s("gone")), None),
        1000,
    );
    let removed = channel.redact_message("gone");
    assert!(removed);
    assert!(channel.scrollback().iter().all(|message| message.msgid.as_deref() != Some("gone")));
    assert_eq!(redaction_note(removed, "gone", Some("cleanup")), "A message was redacted: cleanup");
    assert_eq!(redaction_note(false, "gone", Some("")), "Message gone was redacted");
}

#[test]
fn privmsg_routing_and_actions() {
    let support = NetworkSupport::default();
    assert_eq!(privmsg_window(&support, "Me", "alice", "me"), (s("alice"), true));
    assert_eq!(privmsg_window(&support, "me", "alice", "@#ops"), (s("#ops"), false));
    assert_eq!(privmsg_window(&support, "me", "alice", "bob"), (s("bob"), false));
    assert_eq!(action_text("\x01ACTION waves\x01"), Some(s("waves")));
    assert_eq!(action_text("\x01ACTION \x01"), Some(String::new()));
    assert_eq!(action_text("\x01ACTION waves"), None);
    assert_eq!(action_text("\x01VERSION\x01"), None);
}

#[test]
fn notifications_for_private_messages_and_mentions() {
    assert_eq!(
        privmsg_notification(true, false, false, "alice", "alice", "hi"),
        Some((s("PM from alice"), s("hi"), true))
    );
    let long = "x".repeat(60);
    let (title, body, force) = privmsg_notification(false, true, false, "bob", "#rust", &long).unwrap();
    assert_eq!(title, "bob mentioned you in #rust");
    assert_eq!(body, format!("{}...", "x".repeat(50)));
    assert!(!force);
    assert_eq!(privmsg_notification(true, true, true, "me", "me", "hi"), None);
    assert_eq!(privmsg_notification(false, false, false, "a", "#b", "c"), None);
}

#[test]
fn notice_routing_and_ctcp_replies() {
    let support = NetworkSupport::default();
    assert_eq!(notice_window(&support, "me", true, "NickServ", "me"), Some(s("NickServ")));
    assert_eq!(notice_window(&support, "me", true, "srv", "*"), None);
    assert_eq!(notice_window(&support, "me", false, "bob", "#a"), None);
    assert_eq!(notice_window(&support, "me", true, "bob", "@#a"), Some(s("#a")));

    assert_eq!(ctcp_reply_note("bob", "\x01PING 1000\x01", 1250), Some(s("[CTCP PING reply] bob - 250ms")));
    assert_eq!(ctcp_reply_note("bob", "\x01ping 2000\x01", 1000), Some(s("[CTCP PING reply] bob - 0ms")));
    assert_eq!(ctcp_reply_note("bob", "\x01PING abc\x01", 1000), Some(s("[CTCP PING reply] bob - abc")));
    assert_eq!(
        ctcp_reply_note("bob", "\x01VERSION Linefeed 1.0\x01", 0),
        Some(s("[CTCP VERSION reply] bob - Linefeed 1.0"))
    );
    assert_eq!(ctcp_reply_note("bob", "\x01", 0), None);
    assert_eq!(ctcp_reply_note("bob", "plain notice", 0), None);
}

#[test]
fn status_messages_name_their_audience() {
    assert_eq!(status_message_text("alice", '@', "ops only"), "-alice/ops- ops only");
    assert_eq!(status_message_text("alice", '%', "x"), "-alice/halfops- x");
    assert_eq!(status_message_text("alice", '+', "x"), "-alice/voices- x");
    assert_eq!(status_message_text("alice", '~', "x"), "-alice/members- x");
}

#[test]
fn incoming_kick_removes_user_and_notes_channel() {
    let mut ch = Channel::new();
    ch.add_user("bob", UserMode::Normal);
    let note = kick_note("bob", false, "#chan", "alice", Some("spamming"));
    ch.push_trimmed(ChatMessage::system_fmt(&note, "short", 0), 100);
    ch.remove_user("bob");
    assert!(!ch.has_user("bob"));
    assert!(ch
        .scrollback()
        .iter()
        .any(|m| m.content.contains("bob was kicked from #chan by alice (spamming)")));
}

#[test]
fn incoming_self_kick_clears_users_but_keeps_tab() {
    let mut st = linefeed::client::ClientState::with_settings(linefeed::client::ClientSettings {
        nickname: "me".to_string(),
        hide_join_part: false,
        ignore_list: vec![],
        highlight_words: String::new(),
        auto_join: String::new(),
        auto_perform: String::new(),
        set_invisible: false,
        auto_reconnect: false,
        reconnect_delay_secs: 5,
        max_reconnect_attempts: 10,
    });
    let join = |who: &str| linefeed::client::IncomingEvent::Join {
        sender: s(who),
        channel: s("#chan"),
        account: None,
        realname: None,
    };
    st.apply_incoming(&join("me"));
    st.apply_incoming(&join("bob"));
    let acts = st.apply_incoming(&linefeed::client::IncomingEvent::Kick {
        sender: s("alice"),
        channel: s("#chan"),
        kicked: s("me"),
        reason: Some(s("bye")),
    });
    assert_eq!(acts, vec![linefeed::client::ClientAction::NoteIn(
        s("#chan"),
        s("You were kicked from #chan by alice (bye)"),
    )]);
    assert_eq!(st.windows.len(), 1, "the tab stays");
    let ch = &st.windows[0].1;
    assert!(ch.users.is_empty());
    assert!(!ch.joined);
}

#[test]
fn nick_in_use_while_connected_reports_without_renaming() {
    let params = vec![s("mike"), s("john"), s("Nickname is already in use")];
    let (reply, attempts) = nick_in_use(true, 0, "mike", &params);
    assert_eq!(attempts, 0);
    match reply {
        RegistrationReply::Report(text) => assert!(text.contains("john")),
        other => panic!("expected a report, got {:?}", other),
    }
}

#[test]
fn nick_in_use_during_registration_retries_with_suffix() {
    let params = vec![s("*"), s("mike"), s("Nickname is already in use")];
    assert_eq!(nick_in_use(false, 0, "mike", &params), (RegistrationReply::RetryNick(s("mike_")), 1));
    assert_eq!(
        nick_in_use(false, 3, "mike___", &params),
        (RegistrationReply::Fail(s("Registration failed: Nickname is already in use")), 3)
    );
}

#[test]
fn registration_errors_fail_before_welcome_and_report_after() {
    assert_eq!(
        registration_error(433, false, &[]),
        RegistrationReply::Fail(s("Registration failed: registration error 433"))
    );
    assert_eq!(
        registration_error(464, true, &[s("*"), s("Password incorrect")]),
        RegistrationReply::Report(s("[464] Password incorrect"))
    );
}

#[test]
fn membership_event_notes() {
    assert_eq!(join_note("bob", None, None, "#a"), "bob has joined #a");
    assert_eq!(join_note("bob", Some("acct"), Some("Bob B"), "#a"), "bob (Bob B) [acct] has joined #a");
    assert_eq!(join_note("bob", Some("acct"), None, "#a"), "bob [acct] has joined #a");
    assert_eq!(join_note("bob", None, Some("Bob B"), "#a"), "bob (Bob B) has joined #a");
    assert_eq!(part_note("bob", "#a", None), "bob has left #a ()");
    assert_eq!(part_note("bob", "#a", Some("later")), "bob has left #a (later)");
    assert_eq!(quit_note("bob", None), "bob has quit (Quit)");
    assert_eq!(quit_note("bob", Some("Ping timeout")), "bob has quit (Ping timeout)");
    assert_eq!(nick_note("alice", "alice2"), "alice is now known as alice2");
}

#[test]
fn names_numeric_atomically_replaces_stale_users_and_reads_multi_prefix() {
    let support = NetworkSupport::default();
    let mut channel = Channel::new();
    channel.add_user("alice", UserMode::Normal);
    channel.add_user("stale", UserMode::Op);

    channel.apply_names_reply("@+Alice bob", &support);
    // The visible list is unchanged until the authoritative burst ends.
    assert!(channel.has_user("stale"));
    channel.finish_user_burst();

    assert!(!channel.has_user("stale"));
    let alice = channel.get_user("alice").unwrap();
    assert!(alice.has_mode(UserMode::Op));
    assert!(alice.has_mode(UserMode::Voice));
    assert_eq!(alice.mode, UserMode::Op);
}

#[test]
fn userhost_in_names_keeps_only_the_membership_nickname() {
    let support = NetworkSupport::default();
    let mut channel = Channel::new();
    channel.apply_names_reply("@+Alice!user@example.test bob!ident@host", &support);
    channel.finish_user_burst();
    assert!(channel.has_user("Alice"));
    assert!(channel.has_user("bob"));
    assert!(!channel.has_user("Alice!user@example.test"));
}

#[test]
fn whois_and_error_numerics_are_described() {
    let p = |xs: &[&str]| xs.iter().map(|x| s(x)).collect::<Vec<String>>();
    assert_eq!(
        numeric_line(NumericKind::WhoisUser, 311, &p(&["me", "bob", "u", "h", "*", "Bob B"])),
        Some((s("[WHOIS] bob (u@h) - Bob B"), false))
    );
    assert_eq!(numeric_line(NumericKind::WhoisUser, 311, &p(&["me", "bob", "u"])), None);
    assert_eq!(
        numeric_line(NumericKind::WhoisIdle, 317, &p(&["me", "bob", "3725", "0"])),
        Some((s("[WHOIS] bob has been idle for 1h 2m"), false))
    );
    assert_eq!(
        numeric_line(NumericKind::WhoisIdle, 317, &p(&["me", "bob", "x"])),
        Some((s("[WHOIS] bob has been idle for 0s"), false))
    );
    assert_eq!(
        numeric_line(NumericKind::WhoisServer, 312, &p(&["me", "bob", "irc.example"])),
        Some((s("[WHOIS] bob is on server irc.example ()"), false))
    );
    assert_eq!(
        numeric_line(NumericKind::BadChannelKey, 475, &p(&["me", "#k"])),
        Some((s("Cannot join #k (bad or missing channel key). Use: /join #k <key>"), false))
    );
    assert_eq!(
        numeric_line(NumericKind::QuietList, 728, &p(&["me", "#a", "q", "x!*@*", "op", "0"])),
        Some((s("[QUIET] #a - x!*@*"), false))
    );
    assert_eq!(
        numeric_line(NumericKind::EndOfMonList, 733, &[]),
        Some((s("[MONITOR] End of monitor list"), false))
    );
    assert_eq!(
        numeric_line(NumericKind::Metadata, 761, &p(&["me", "key", "value"])),
        Some((s("[METADATA 761] key value"), true))
    );
    assert_eq!(numeric_line(NumericKind::Other, 999, &p(&["me"])), None);
    assert_eq!(
        numeric_line(NumericKind::Other, 999, &p(&["me", "some", "text"])),
        Some((s("[999] some text"), false))
    );
    assert_eq!(idle_text(59), "59s");
    assert_eq!(idle_text(61), "1m 1s");
    assert_eq!(idle_text(7200), "2h 0m");
}

#[test]
fn topic_set_time_is_parsed_and_described() {
    let (ts, note) = topic_set_note("alice", "0");
    assert_eq!(ts, 0);
    assert_eq!(note, "Topic set by alice on Unknown");
    let (ts, _) = topic_set_note("alice", "junk");
    assert_eq!(ts, 0);
    let (ts, note) = topic_set_note("alice", "1700000000");
    assert_eq!(ts, 1700000000);
    assert!(note.starts_with("Topic set by alice on "));
}

use linefeed::channel::{Channel, ChannelUser, KnownUser};
use linefeed::listing::ChannelListEntry;
use linefeed::modes::{mode_effects, ModeEffect};
use linefeed::{CaseMapping, ChatMessage, NetworkSupport, UserMode};

fn nicks(ch: &Channel) -> Vec<&str> {
    ch.users.iter().map(|u| u.nick.as_str()).collect()
}

#[test]
fn user_burst_dedups_and_sorts_once() {
    let mut ch = Channel::new();
    ch.add_user("zed", UserMode::Normal);
    ch.set_user_away("zed", Some("afk".to_string()));
    // A NAMES refresh streams in, including a duplicate of the existing user.
    ch.add_user_burst_modes("alice", &[UserMode::Op]);
    ch.add_user_burst_modes("ZED", &[UserMode::Normal]);
    ch.add_user_burst_modes("bob", &[UserMode::Normal]);
    ch.finish_user_burst();

    assert_eq!(nicks(&ch), vec!["alice", "bob", "ZED"]);
    // Fresh NAMES spelling/modes win, while compatible metadata survives.
    assert!(ch.get_user("zed").unwrap().is_away());
}

#[test]
fn names_snapshot_replaces_stale_membership() {
    let mut ch = Channel::new();
    ch.add_user("alice", UserMode::Op);
    ch.add_user("bob", UserMode::Voice);
    ch.set_user_account("alice", Some("account".to_string()));
    ch.set_user_realname("alice", Some("Alice Example".to_string()));

    ch.begin_user_burst();
    ch.add_user_burst_modes("Alice", &[UserMode::Voice]);
    ch.finish_user_burst();

    assert_eq!(ch.users.len(), 1);
    let alice = ch.get_user("ALICE").unwrap();
    assert_eq!(alice.mode, UserMode::Voice);
    assert_eq!(alice.account.as_deref(), Some("account"));
    assert_eq!(alice.realname.as_deref(), Some("Alice Example"));
    assert!(!ch.has_user("bob"));
}

#[test]
fn names_snapshot_reconciles_interleaved_membership_events() {
    let mut ch = Channel::new();
    ch.add_user("stale", UserMode::Normal);
    ch.begin_user_burst();
    ch.add_user_burst_modes("alice", &[UserMode::Normal]);
    ch.add_user_burst_modes("bob", &[UserMode::Normal]);

    ch.remove_user("bob");
    ch.add_user("carol", UserMode::Voice);
    ch.finish_user_burst();

    assert!(ch.has_user("alice"));
    assert!(ch.has_user("carol"));
    assert!(!ch.has_user("bob"));
    assert!(!ch.has_user("stale"));
}

#[test]
fn simultaneous_membership_modes_survive_individual_changes() {
    let support = NetworkSupport::default();
    let (nick, modes) = support.parse_prefixed_nick("@+alice");
    let mut ch = Channel::new();
    ch.add_user_burst_status_modes(nick, &modes);
    ch.finish_user_burst();

    let alice = ch.get_user("alice").unwrap();
    assert!(alice.has_mode(UserMode::Op));
    assert!(alice.has_mode(UserMode::Voice));
    assert_eq!(alice.mode, UserMode::Op);

    ch.remove_user_mode("alice", UserMode::Voice);
    let alice = ch.get_user("alice").unwrap();
    assert!(alice.has_mode(UserMode::Op));
    assert!(!alice.has_mode(UserMode::Voice));
    assert_eq!(alice.mode, UserMode::Op);
}

#[test]
fn live_parameter_modes_stay_aligned() {
    let support = NetworkSupport::default();
    let mut ch = Channel::new();
    ch.set_channel_modes_from_reply("+ntk", &["oldkey".to_string()], &support);
    assert_eq!(ch.modes, "+ntk");
    assert_eq!(ch.mode_params, ["oldkey"]);

    ch.apply_channel_mode('-', 'k', Some("oldkey"));
    assert_eq!(ch.modes, "+nt");
    assert!(ch.mode_params.is_empty());

    ch.apply_channel_mode('+', 'l', Some("50"));
    assert_eq!(ch.modes, "+ntl");
    assert_eq!(ch.mode_params, ["50"]);
    ch.apply_channel_mode('-', 'l', None);
    assert_eq!(ch.modes, "+nt");
    assert!(ch.mode_params.is_empty());
}

#[test]
fn channel_mode_reply_consumes_type_a_list_parameters() {
    let support = NetworkSupport::default();
    let mut ch = Channel::new();

    ch.set_channel_modes_from_reply("+ntk", &["secret".to_string()], &support);
    assert_eq!(ch.modes, "+ntk");
    assert_eq!(ch.mode_params, ["secret"]);

    ch.set_channel_modes_from_reply("+bk-m", &["*!bad@host".to_string(), "secret2".to_string()], &support);
    assert_eq!(ch.modes, "+bk");
    assert_eq!(ch.mode_params, ["*!bad@host", "secret2"]);

    ch.set_channel_modes_from_reply("-b+k", &["*!gone@host".to_string(), "newkey".to_string()], &support);
    assert_eq!(ch.modes, "+k");
    assert_eq!(ch.mode_parameter('k'), Some("newkey"));
}

#[test]
fn irc_case_mappings_fold_only_their_advertised_equivalences() {
    assert!(CaseMapping::Rfc1459.eq("[Nick]\\^", "{nick}|~"));
    assert!(CaseMapping::StrictRfc1459.eq("[Nick]\\", "{nick}|"));
    assert!(!CaseMapping::StrictRfc1459.eq("nick^", "nick~"));
    assert!(!CaseMapping::Ascii.eq("[nick]", "{nick}"));
    assert!(CaseMapping::Ascii.eq("Alice", "alice"));
}

#[test]
fn push_trimmed_caps_scrollback() {
    let mut ch = Channel::new();
    for i in 0..10 {
        ch.push_trimmed(ChatMessage::system_fmt(&format!("m{}", i), "short", 0), 5);
    }
    assert_eq!(ch.messages.len(), 5);
    assert_eq!(ch.messages.front().unwrap().content, "m5");
    assert_eq!(ch.messages.back().unwrap().content, "m9");
}

#[test]
fn push_trimmed_skips_known_msgids() {
    let mut ch = Channel::new();
    let m = ChatMessage::new_fmt("a", "x", "short", 0).with_irc_metadata(None, Some("id1".into()), None);
    ch.push_trimmed(m.clone(), 0);
    ch.push_trimmed(m, 0);
    assert_eq!(ch.messages.len(), 1);
    assert!(ch.redact_message("id1"));
    assert!(!ch.redact_message("id1"));
    assert!(ch.messages.is_empty());
}

#[test]
fn channel_list_entry_precomputes_keys() {
    let e = ChannelListEntry::new("#Rust".into(), 42, "\x0304Hot\x03 topic".into());
    assert_eq!(e.name_lower, "#rust");
    assert_eq!(e.topic_clean, "Hot topic");
    assert_eq!(e.topic_lower, "hot topic");
}

#[test]
fn removed_user_is_gone() {
    let mut ch = Channel::new();
    ch.add_user("@Alice", UserMode::Op);
    ch.add_user("bob", UserMode::Normal);
    assert!(ch.has_user("alice"));
    assert_eq!(ch.get_user("ALICE").unwrap().prefix(), "@");
    ch.remove_user("ALICE");
    assert!(!ch.has_user("alice"));
    assert_eq!(nicks(&ch), vec!["bob"]);
    ch.clear_users();
    assert!(ch.users.is_empty());
}

#[test]
fn stray_prefix_token_adds_nobody() {
    let mut ch = Channel::new();
    ch.add_user("@", UserMode::Op);
    assert!(ch.users.is_empty());
}

#[test]
fn users_sort_by_rank_then_nick() {
    let mut ch = Channel::new();
    ch.add_user("zoe", UserMode::Normal);
    ch.add_user("yan", UserMode::Voice);
    ch.add_user("amy", UserMode::Normal);
    ch.add_user("xia", UserMode::Op);
    assert_eq!(nicks(&ch), vec!["xia", "yan", "amy", "zoe"]);
    ch.add_user_status_mode("zoe", 'q');
    assert_eq!(nicks(&ch), vec!["zoe", "xia", "yan", "amy"]);
    assert_eq!(ch.get_user("zoe").unwrap().prefix(), "~");
    ch.remove_user_status_mode("zoe", 'q');
    assert_eq!(nicks(&ch), vec!["xia", "yan", "amy", "zoe"]);
    assert_eq!(ch.away_count(), 0);
}

#[test]
fn rename_changes_nick_or_drops_duplicates() {
    let mut ch = Channel::new();
    ch.add_user("alice", UserMode::Normal);
    ch.add_user("bob", UserMode::Normal);
    ch.rename_user("alice", "carol");
    assert_eq!(nicks(&ch), vec!["bob", "carol"]);
    ch.rename_user("carol", "BOB");
    assert_eq!(nicks(&ch), vec!["bob"]);
    ch.rename_user("bob", "Bob");
    assert_eq!(nicks(&ch), vec!["Bob"]);
}

#[test]
fn prefix_schema_redisplays_members() {
    let mut ch = Channel::new();
    ch.add_user("alice", UserMode::Op);
    ch.set_prefix_schema("ov", "@+");
    assert_eq!(ch.get_user("alice").unwrap().prefix(), "@");
    ch.set_prefix_schema("vo", "+@");
    assert_eq!(ch.get_user("alice").unwrap().prefix(), "@");
    ch.add_user_status_mode("alice", 'v');
    assert_eq!(ch.get_user("alice").unwrap().prefix(), "+");
    assert_eq!(ch.get_user("alice").unwrap().mode, UserMode::Voice);
    // Mismatched schemas are ignored.
    ch.set_prefix_schema("ov", "@");
    assert_eq!(ch.get_user("alice").unwrap().prefix(), "+");
}

#[test]
fn identity_and_away_updates() {
    let mut ch = Channel::new();
    ch.add_user("alice", UserMode::Normal);
    let mut id = KnownUser::default();
    id.nick = "ALICE".into();
    id.account = Some("acct".into());
    id.away = Some("lunch".into());
    id.bot = true;
    ch.apply_user_identity(&id);
    let a = ch.get_user("alice").unwrap();
    assert_eq!(a.account.as_deref(), Some("acct"));
    assert!(a.bot);
    assert_eq!(ch.away_count(), 1);
    ch.set_user_away("alice", None);
    assert_eq!(ch.away_count(), 0);
    if let Some(u) = ch.get_user_mut("alice") {
        u.hostname = Some("host".into());
    }
    assert_eq!(ch.get_user("alice").unwrap().hostname.as_deref(), Some("host"));
}

#[test]
fn ban_lists_follow_live_changes() {
    let mut ch = Channel::new();
    ch.apply_mode_list_change('+', 'b', "*!*@bad", "op");
    ch.apply_mode_list_change('+', 'b', "*!*@BAD", "op2");
    assert_eq!(ch.bans.len(), 1);
    let list = ch.mode_list('b').unwrap();
    assert_eq!(list.len(), 1);
    assert_eq!(list[0].mask, "*!*@bad");
    assert_eq!(list[0].set_by, "op2");
    ch.upsert_mode_list_entry('e', "*!*@ok".into(), "op".into(), 5);
    assert_eq!(ch.mode_list('e').unwrap()[0].set_time, 5);
    ch.complete_mode_list('e');
    ch.complete_mode_list('e');
    assert_eq!(ch.mode_lists_complete, vec!['e']);
    ch.apply_mode_list_change('-', 'b', "*!*@Bad", "op");
    assert!(ch.bans.is_empty());
    assert!(ch.mode_list('b').unwrap().is_empty());
}

#[test]
fn channel_user_basics() {
    let u = ChannelUser::new("x".into(), UserMode::HalfOp);
    assert_eq!(u.prefix(), "%");
    assert!(u.has_mode(UserMode::HalfOp));
    assert!(!u.has_mode(UserMode::Normal));
    assert!(!u.is_away());
    let n = ChannelUser::new("y".into(), UserMode::Normal);
    assert!(n.has_mode(UserMode::Normal));
    assert_eq!(n.prefix(), "");
}

#[test]
fn channel_flags_toggle() {
    let mut ch = Channel::new();
    ch.apply_channel_mode_flag('+', 'n');
    ch.apply_channel_mode_flag('+', 'n');
    assert_eq!(ch.modes, "+n");
    ch.apply_channel_mode_flag('-', 'n');
    assert_eq!(ch.modes, "");
}

#[test]
fn default_system_timestamp_uses_configured_format() {
    let long = ChatMessage::system_fmt("long", "long", 0);
    assert_eq!(long.timestamp.len(), "[00:00:00]".len());
    let full = ChatMessage::system_fmt("full", "full", 0);
    assert_eq!(full.timestamp.len(), "[00-00 00:00]".len());
    let short = ChatMessage::system_fmt("short", "short", 0);
    assert_eq!(short.timestamp.len(), "[00:00]".len());
    assert_eq!(short.sender, "*");
    assert!(short.is_system);
}

#[test]
fn echo_message_enriches_the_local_row_without_duplication() {
    let support = NetworkSupport::default();
    let mut channel = Channel::new();
    channel.messages.push_back(ChatMessage::new_fmt("me", "hello", "short", 0));
    let echoed = ChatMessage::new_fmt("me", "hello", "short", 0).with_irc_metadata(
        Some("2026-09-12T12:00:00.000Z".to_string()),
        Some("abc".to_string()),
        Some("acct".to_string()),
    ).with_reply_to(Some("prior".to_string()));
    assert!(channel.merge_server_echo(&support, true, "me", &echoed));
    assert_eq!(channel.messages.len(), 1);
    assert_eq!(channel.messages[0].msgid.as_deref(), Some("abc"));
    assert_eq!(channel.messages[0].account.as_deref(), Some("acct"));
    assert_eq!(channel.messages[0].reply_to.as_deref(), Some("prior"));
}

#[test]
fn echo_merge_needs_the_cap_our_nick_and_an_unclaimed_row() {
    let support = NetworkSupport::default();
    let mut channel = Channel::new();
    channel.messages.push_back(ChatMessage::new_fmt("Me", "hi", "short", 0));
    let echoed = ChatMessage::new_fmt("me", "hi", "short", 0).with_irc_metadata(None, Some("id1".to_string()), None);
    assert!(!channel.merge_server_echo(&support, false, "me", &echoed));
    assert!(!channel.merge_server_echo(&support, true, "other", &echoed));
    assert!(channel.merge_server_echo(&support, true, "ME", &echoed));
    assert_eq!(channel.messages[0].msgid.as_deref(), Some("id1"));
    // The row now carries an identity and is no longer a candidate.
    assert!(!channel.merge_server_echo(&support, true, "me", &echoed));
    // Only the last 32 rows are searched.
    let mut old = Channel::new();
    old.messages.push_back(ChatMessage::new_fmt("me", "late", "short", 0));
    for _ in 0..32 {
        old.messages.push_back(ChatMessage::new_fmt("bob", "x", "short", 0));
    }
    let late = ChatMessage::new_fmt("me", "late", "short", 0).with_irc_metadata(None, Some("id2".to_string()), None);
    assert!(!old.merge_server_echo(&support, true, "me", &late));
}

fn mode_change(ch: &mut Channel, support: &NetworkSupport, mode: &str, params: &[String]) {
    ch.apply_mode_message(support, "oper", mode, params, 1000, "short", 0);
}

#[test]
fn incoming_mode_updates_user_mode() {
    let support = NetworkSupport::default();
    let mut channel = Channel::new();
    channel.add_user("alice", UserMode::Normal);
    mode_change(&mut channel, &support, "+o", &["alice".to_string()]);
    let alice = channel.get_user("alice").unwrap();
    assert_eq!(alice.mode, UserMode::Op);
}

#[test]
fn incoming_membership_modes_preserve_other_prefixes() {
    let support = NetworkSupport::default();
    let mut channel = Channel::new();
    channel.add_user("alice", UserMode::Op);
    mode_change(&mut channel, &support, "+v", &["Alice".to_string()]);
    let alice = channel.get_user("alice").unwrap();
    assert_eq!(alice.mode, UserMode::Op);
    assert!(alice.has_mode(UserMode::Voice));
    mode_change(&mut channel, &support, "-v", &["Alice".to_string()]);
    let alice = channel.get_user("alice").unwrap();
    assert_eq!(alice.mode, UserMode::Op);
    assert!(!alice.has_mode(UserMode::Voice));
}

#[test]
fn live_channel_modes_update_parameter_values() {
    let support = NetworkSupport::default();
    let mut channel = Channel::new();
    channel.set_channel_modes_from_reply("+ntk", &["oldkey".to_string()], &support);
    mode_change(&mut channel, &support, "-k+l", &["oldkey".into(), "50".into()]);
    assert_eq!(channel.modes, "+ntl");
    assert_eq!(channel.mode_params, ["50"]);
    mode_change(&mut channel, &support, "-l", &[]);
    assert_eq!(channel.modes, "+nt");
    assert!(channel.mode_params.is_empty());
}

#[test]
fn mode_params_align_with_isupport_chanmodes() {
    let mut support = NetworkSupport::default();
    support.apply_isupport_tokens(&[
        "nick".to_string(),
        "CHANMODES=eIbq,k,flj,imnpst".to_string(),
        "PREFIX=(ov)@+".to_string(),
        "are supported".to_string(),
    ]);
    let mut channel = Channel::new();
    channel.add_user("alice", UserMode::Normal);
    // "+fo [4:5] alice": 'f' must consume "[4:5]" so 'o' reads "alice".
    mode_change(&mut channel, &support, "+fo", &["[4:5]".to_string(), "alice".to_string()]);
    assert_eq!(channel.get_user("alice").unwrap().mode, UserMode::Op);
    // +q is a list mode here, not owner: consuming the mask must not create
    // or promote any user.
    mode_change(&mut channel, &support, "+q", &["*!*@spam".to_string()]);
    assert!(!channel.has_user("*!*@spam"));
    assert_eq!(channel.get_user("alice").unwrap().mode, UserMode::Op);
}

#[test]
fn mode_changes_are_noted_and_parsed_per_isupport() {
    let support = NetworkSupport::default();
    let effects = mode_effects(&support, "+ob-l+k", &["alice".to_string(), "*!*@x".to_string(), "key".to_string()]);
    assert_eq!(effects.len(), 3);
    assert!(matches!(&effects[0], ModeEffect::Member { add: true, letter: 'o', nick } if nick == "alice"));
    assert!(matches!(&effects[1], ModeEffect::Parameter { sign: '-', mode: 'l', parameter: None }));
    assert!(matches!(&effects[2], ModeEffect::Parameter { sign: '+', mode: 'k', parameter: Some(p) } if p == "key"));
    let flags = mode_effects(&support, "+nt-o", &[]);
    assert_eq!(flags.len(), 2);
    assert!(matches!(&flags[1], ModeEffect::Flag { sign: '+', mode: 't' }));

    let mut channel = Channel::new();
    channel.apply_mode_message(&support, "oper", "+nt", &[], 1000, "short", 0);
    assert_eq!(channel.modes, "+nt");
    let note = channel.messages.back().unwrap();
    assert_eq!(note.content, "oper set mode +nt");
    assert!(note.is_system);
    channel.apply_mode_message(&support, "oper", "+kl", &["k1".to_string(), "9".to_string()], 1000, "short", 0);
    assert_eq!(channel.messages.back().unwrap().content, "oper set mode +kl k1 9");
}

#[test]
fn delivered_messages_count_as_unread_once() {
    let mut channel = Channel::new();
    let msg = ChatMessage::new_fmt("bob", "hi", "short", 0).with_irc_metadata(None, Some("m1".to_string()), None);
    assert!(channel.deliver_message(msg.clone(), 100, false));
    assert_eq!(channel.unread, 1);
    assert!(!channel.deliver_message(msg, 100, false));
    assert_eq!(channel.unread, 1);
    assert_eq!(channel.messages.len(), 1);
    assert!(channel.deliver_message(ChatMessage::new_fmt("bob", "again", "short", 0), 100, true));
    assert_eq!(channel.unread, 1);
    assert_eq!(channel.messages.len(), 2);
}

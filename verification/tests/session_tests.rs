use linefeed::listing::{parse_count, parse_list_reply, ConnectionForm, SaslMechanism, ServerFavorite};
use linefeed::session::{
    check_nick_mention, clamp_quit_reason, ident_contains, is_ignored, normalize_channel_name, rand_suffix,
    split_irc_text_payload, strip_status_prefix, InputHistory, ReconnectState, ServerConfig, SessionConfig,
};
use linefeed::session::{
    history_page_limit, message_reference, new_window_allowed, redact_own_credentials, total_history_limit,
};
use linefeed::{ChatMessage, ConnectionIntent, NetworkSupport, ScrollbackStats};

const IRC_MAX_LINE_BYTES: usize = 510;

fn lost_state() -> ReconnectState {
    ReconnectState {
        auto_reconnect: false,
        connected: false,
        connecting: false,
        connection_lost: false,
        reconnect_attempts: 0,
        max_reconnect_attempts: 10,
        reconnect_delay_secs: 5,
    }
}

#[test]
fn overlong_quit_reason_is_clamped_to_fit_one_line() {
    let clamped = clamp_quit_reason(Some("é".repeat(600))).unwrap();
    let line = format!("QUIT :{}", clamped);
    assert!(line.len() <= IRC_MAX_LINE_BYTES);
    assert!(clamped.is_char_boundary(clamped.len()));
    assert_eq!(clamped.len(), 504);
    // Short reasons pass through untouched.
    assert_eq!(clamp_quit_reason(Some("bye".to_string())).as_deref(), Some("bye"));
    assert_eq!(clamp_quit_reason(None), None);
}

#[test]
fn split_irc_text_payload_preserves_utf8_boundaries() {
    let text = "é".repeat(400);
    let chunks = split_irc_text_payload("PRIVMSG", "#chan", &text, "", "").unwrap();
    assert!(chunks.len() > 1);
    for chunk in &chunks {
        assert!(format!("PRIVMSG #chan :{}", chunk).len() <= IRC_MAX_LINE_BYTES);
        assert!(chunk.is_char_boundary(chunk.len()));
    }
    assert_eq!(chunks.concat(), text);
}

#[test]
fn split_payload_wraps_and_rejects_oversized_overhead() {
    assert_eq!(
        split_irc_text_payload("PRIVMSG", "#c", "hi", "\x01ACTION ", "\x01"),
        Some(vec!["\x01ACTION hi\x01".to_string()])
    );
    let huge_target = "#".repeat(600);
    assert_eq!(split_irc_text_payload("PRIVMSG", &huge_target, "hi", "", ""), None);
}

#[test]
fn awaiting_reconnect_covers_the_whole_backoff_window() {
    let mut s = lost_state();
    s.auto_reconnect = true;
    assert!(!s.awaiting_reconnect(), "nothing pending before a loss");

    s.mark_connection_lost();
    assert!(s.awaiting_reconnect());
    assert!(!s.should_reconnect(Some(0)));

    s.reconnect_attempts = s.max_reconnect_attempts;
    assert!(!s.awaiting_reconnect(), "attempts exhausted");

    s.reconnect_attempts = 0;
    s.connecting = true;
    assert!(!s.awaiting_reconnect(), "a retry is already in flight");

    s.connecting = false;
    s.auto_reconnect = false;
    assert!(!s.awaiting_reconnect(), "setting disabled");
}

#[test]
fn reconnect_backoff_doubles_and_caps() {
    let mut s = lost_state();
    s.auto_reconnect = true;
    s.mark_connection_lost();
    assert_eq!(s.get_reconnect_delay(), 5);
    assert!(s.should_reconnect(Some(5)));
    assert!(s.should_reconnect(None));
    s.start_reconnect();
    assert!(s.connecting && !s.connection_lost);
    assert_eq!(s.get_reconnect_delay(), 10);
    s.reconnect_attempts = 3;
    assert_eq!(s.get_reconnect_delay(), 40);
    s.reconnect_attempts = 4;
    assert_eq!(s.get_reconnect_delay(), 60);
    s.reconnect_attempts = 5;
    assert_eq!(s.get_reconnect_delay(), 60);
    s.reconnect_attempts = 1000;
    assert_eq!(s.get_reconnect_delay(), 60);
    s.reset_reconnect_state();
    assert_eq!(s.reconnect_attempts, 0);
    assert!(!s.connection_lost);
}

fn server(host: &str, port: u16, use_tls: bool) -> ServerConfig {
    ServerConfig {
        host: host.into(),
        port,
        use_tls,
        accept_invalid_certs: false,
        nick: "me".into(),
        username: "me".into(),
        realname: "Me".into(),
        password: None,
        sasl_username: None,
        sasl_password: None,
        pre_away_message: None,
        persistence_profile: None,
    }
}

#[test]
fn endpoint_identity() {
    let cfg = SessionConfig {
        server: server("IRC.Example.org", 6697, true),
        auto_join_channels: String::new(),
        auto_perform: String::new(),
        set_invisible: true,
    };
    assert_eq!(cfg.endpoint_label(), "IRC.Example.org:6697");
    assert_eq!(cfg.log_identity(), "tls://irc.example.org:6697");
    assert!(cfg.allows_legacy_log_migration());
    assert_eq!(cfg.endpoint_key().host, "irc.example.org");
    let v6 = SessionConfig { server: server("::1", 6667, false), ..cfg.clone() };
    assert_eq!(v6.endpoint_label(), "[::1]:6667");
    assert_eq!(v6.log_identity(), "plain://[::1]:6667");
    assert!(v6.allows_legacy_log_migration());
    let odd = SessionConfig { server: server("IRC.Example.org", 7000, true), ..cfg };
    assert!(!odd.allows_legacy_log_migration());
}

fn blank_form() -> ConnectionForm {
    ConnectionForm {
        server_host: "irc.example.org".into(),
        server_port: "6697".into(),
        use_tls: true,
        password: String::new(),
        nickname: "me".into(),
        username: "me".into(),
        realname: "Me".into(),
        auto_join_channels: String::new(),
        auto_perform: String::new(),
        pre_away_message: String::new(),
        persistence_profile: String::new(),
        sasl_username: String::new(),
        sasl_password: String::new(),
        accept_invalid_certs: false,
    }
}

#[test]
fn connection_form_rejects_every_invalid_port_without_a_fallback() {
    let mut form = blank_form();
    for invalid in ["", "0", "abc", "65536", "70000", "-1"] {
        form.server_port = invalid.into();
        assert!(form.session_from_form(false).is_err(), "port {invalid:?} must be rejected");
    }
    for valid in ["1", "65535"] {
        form.server_port = valid.into();
        assert_eq!(form.session_from_form(false).unwrap().server.port.to_string(), valid);
    }

    form.server_host = "   ".into();
    form.server_port = "6697".into();
    let err = form.session_from_form(false).unwrap_err();
    assert!(err.contains("cannot be empty"));
}

#[test]
fn connection_form_validation_order_and_normalisation() {
    let mut form = blank_form();
    form.server_host = "  [2001:db8::1]  ".into();
    form.persistence_profile = "  mobile-1 ".into();
    form.password = "pw".into();
    let s = form.session_from_form(true).unwrap();
    assert_eq!(s.server.host, "2001:db8::1");
    assert_eq!(s.server.persistence_profile.as_deref(), Some("mobile-1"));
    assert_eq!(s.server.password.as_deref(), Some("pw"));
    assert_eq!(s.server.sasl_username, None);
    assert_eq!(s.server.pre_away_message, None);
    assert!(s.set_invisible);
    assert_eq!(s.endpoint_label(), "[2001:db8::1]:6697");

    form.server_host = "[".into();
    assert_eq!(form.session_from_form(false).unwrap().server.host, "[");
    form.server_host = "[]".into();
    assert_eq!(form.session_from_form(false).unwrap_err(), "Server host cannot be empty");

    form.server_host = "irc.example.org".into();
    form.server_port = " 70000 ".into();
    form.pre_away_message = "a\nb".into();
    assert_eq!(
        form.session_from_form(false).unwrap_err(),
        "Invalid server port \"70000\"; enter a number from 1 to 65535"
    );
    form.server_port = "6697".into();
    assert_eq!(
        form.session_from_form(false).unwrap_err(),
        "Pre-away message must be one IRC line of at most 300 bytes"
    );
    form.pre_away_message = "\u{e9}".repeat(150);
    assert!(form.session_from_form(false).is_ok());
    form.pre_away_message = "\u{e9}".repeat(151);
    assert!(form.session_from_form(false).is_err());
    form.pre_away_message = "away".into();
    form.persistence_profile = "x".repeat(33);
    assert_eq!(
        form.session_from_form(false).unwrap_err(),
        "Persistence profile must be 1-32 letters, digits, '_' or '-'"
    );
    form.persistence_profile = "x".repeat(32);
    assert!(form.session_from_form(false).is_ok());
    form.persistence_profile = "bad profile".into();
    assert!(form.session_from_form(false).is_err());
    form.persistence_profile = "   ".into();
    assert_eq!(form.session_from_form(false).unwrap().server.persistence_profile, None);
}

#[test]
fn question_mark_only_ignore_pattern_matches_nick() {
    let support = NetworkSupport::default();
    let list = vec!["a?ice".to_string()];
    let keys: Vec<String> = list.iter().map(|p| support.canonicalize(p)).collect();
    assert!(is_ignored(&support, &list, &keys, "alice", Some("alice!u@host")));
    assert!(is_ignored(&support, &list, &keys, "axice", Some("axice!u@host")));
    assert!(!is_ignored(&support, &list, &keys, "allice", Some("allice!u@host")));
    assert!(!is_ignored(&support, &list, &keys, "bob", Some("bob!u@host")));
}

#[test]
fn ignore_masks_use_the_full_prefix() {
    let support = NetworkSupport::default();
    let list = vec!["*!*@spam.example".to_string(), "Troll".to_string()];
    let keys: Vec<String> = list.iter().map(|p| support.canonicalize(p)).collect();
    assert!(is_ignored(&support, &list, &keys, "x", Some("x!y@spam.example")));
    assert!(!is_ignored(&support, &list, &keys, "x", None));
    assert!(is_ignored(&support, &list, &keys, "TROLL", None));
}

#[test]
fn special_character_nicks_highlight_with_identifier_boundaries() {
    let support = NetworkSupport::default();
    let me = support.canonicalize("foo-bar");
    assert!(check_nick_mention(&support, &me, &[], "hello foo-bar!"));
    assert!(check_nick_mention(&support, &me, &[], "(FOO-BAR), ping"));
    assert!(!check_nick_mention(&support, &me, &[], "xfoo-bar"));
    assert!(!check_nick_mention(&support, &me, &[], "foo-barry"));

    let me = support.canonicalize("[alice]");
    assert!(check_nick_mention(&support, &me, &[], "hi {ALICE},"));
    assert!(!check_nick_mention(&support, &me, &[], "x[alice]"));
}

#[test]
fn highlight_words_match_with_punctuation_at_identifier_boundaries() {
    let support = NetworkSupport::default();
    let words: Vec<String> = "foo-bar, node.js"
        .split(',')
        .map(|s| support.canonicalize(s.trim()))
        .filter(|s| !s.is_empty())
        .collect();
    assert!(check_nick_mention(&support, "", &words, "foo-bar: are you there"));
    assert!(check_nick_mention(&support, "", &words, "pinging FOO-BAR again"));
    assert!(check_nick_mention(&support, "", &words, "the node.js bot said hi"));
    assert!(!check_nick_mention(&support, "", &words, "xfoo-bar"));
    assert!(!check_nick_mention(&support, "", &words, "node.jss"));
    assert!(!check_nick_mention(&support, "", &words, "no highlights here"));
}

#[test]
fn ident_contains_scans_non_overlapping_matches() {
    assert!(ident_contains("a bob c", "bob"));
    assert!(!ident_contains("bobby", "bob"));
    assert!(ident_contains("bobby bob", "bob"));
    assert!(!ident_contains("anything", ""));
}

#[test]
fn status_prefixed_targets_and_channel_names() {
    let support = NetworkSupport::default();
    assert_eq!(strip_status_prefix(&support, "@#ops"), "#ops");
    assert_eq!(strip_status_prefix(&support, "#ops"), "#ops");
    assert_eq!(strip_status_prefix(&support, "@nick"), "@nick");
    assert_eq!(strip_status_prefix(&support, ""), "");
    assert_eq!(normalize_channel_name(&support, "rust"), "#rust");
    assert_eq!(normalize_channel_name(&support, "&local"), "&local");
}

#[test]
fn input_history_browses_and_restores() {
    let mut h = InputHistory {
        command_history: vec!["one".into(), "two".into()],
        history_index: None,
        history_temp: String::new(),
        input_text: "draft".into(),
    };
    h.history_up();
    assert_eq!(h.input_text, "two");
    h.history_up();
    assert_eq!(h.input_text, "one");
    h.history_up();
    assert_eq!(h.input_text, "one");
    h.history_down();
    assert_eq!(h.input_text, "two");
    h.history_down();
    assert_eq!(h.input_text, "draft");
    assert_eq!(h.history_index, None);
}

#[test]
fn favorite_load_preserves_its_endpoint_scoped_profile() {
    let mut form = ConnectionForm {
        server_host: String::new(),
        server_port: String::new(),
        use_tls: false,
        password: String::new(),
        nickname: "current".into(),
        username: "curuser".into(),
        realname: "Current".into(),
        auto_join_channels: String::new(),
        auto_perform: String::new(),
        pre_away_message: String::new(),
        persistence_profile: String::new(),
        sasl_username: String::new(),
        sasl_password: String::new(),
        accept_invalid_certs: false,
    };
    let favorite = ServerFavorite {
        name: "private".into(),
        host: "favorite.example".into(),
        port: "7443".into(),
        use_tls: true,
        password: "server-pass".into(),
        nickname: "favnick".into(),
        auto_join: "#private key".into(),
        auto_perform: "/ns identify nickserv-pass".into(),
        sasl_username: "account".into(),
        sasl_password: "sasl-pass".into(),
        username: "ident".into(),
        realname: "Favorite User".into(),
        accept_invalid_certs: true,
        pre_away_message: "syncing".into(),
        persistence_profile: "mobile".into(),
        ..ServerFavorite::default()
    };
    form.load_favorite(&favorite);
    assert_eq!(form.server_host, "favorite.example");
    assert_eq!(form.server_port, "7443");
    assert!(form.use_tls);
    assert_eq!(form.password, "server-pass");
    assert_eq!(form.nickname, "favnick");
    assert_eq!(form.username, "ident");
    assert_eq!(form.realname, "Favorite User");
    assert_eq!(form.sasl_username, "account");
    assert_eq!(form.sasl_password, "sasl-pass");
    assert_eq!(form.pre_away_message, "syncing");
    assert_eq!(form.persistence_profile, "mobile");
    assert!(form.accept_invalid_certs);
    assert_eq!(form.auto_join_channels, "#private key");
    assert_eq!(ServerFavorite::default().sasl_mechanism, SaslMechanism::Auto);

    let session = form.session_from_form(false).unwrap();
    let config = &session.server;
    assert_eq!(config.host, "favorite.example");
    assert_eq!(config.port, 7443);
    assert_eq!(config.password.as_deref(), Some("server-pass"));
    assert_eq!(config.sasl_username.as_deref(), Some("account"));
    assert_eq!(config.sasl_password.as_deref(), Some("sasl-pass"));
    assert_eq!(config.pre_away_message.as_deref(), Some("syncing"));
    assert_eq!(config.persistence_profile.as_deref(), Some("mobile"));
    assert!(config.accept_invalid_certs);
    assert_eq!(session.auto_join_channels, "#private key");
}

#[test]
fn favorite_without_identity_keeps_the_current_one() {
    let mut form = blank_form();
    let favorite = ServerFavorite { host: "other.example".into(), port: "6667".into(), ..ServerFavorite::default() };
    form.load_favorite(&favorite);
    assert_eq!(form.server_host, "other.example");
    assert!(!form.use_tls);
    assert_eq!(form.nickname, "me");
    assert_eq!(form.username, "me");
    assert_eq!(form.realname, "Me");
}

#[test]
fn misc_plain_types() {
    assert!(rand_suffix() < 10000);
    let s = ScrollbackStats { drawn: 1, measured: 2, total_rows: 3 };
    assert_eq!(s, ScrollbackStats { drawn: 1, measured: 2, total_rows: 3 });
    assert_ne!(ConnectionIntent::Idle, ConnectionIntent::ManualDisconnect);
}

#[test]
fn history_limits_are_clamped() {
    assert_eq!(total_history_limit(Some(50), 200, 1000), 50);
    assert_eq!(total_history_limit(None, 200, 1000), 200);
    assert_eq!(total_history_limit(Some(5000), 200, 1000), 1000);
    assert_eq!(total_history_limit(Some(0), 200, 1000), 1);
    assert_eq!(history_page_limit(250, None), 100);
    assert_eq!(history_page_limit(250, Some(50)), 50);
    assert_eq!(history_page_limit(30, Some(50)), 30);
    assert_eq!(history_page_limit(0, Some(0)), 1);
}

#[test]
fn message_reference_prefers_msgid_over_time() {
    let plain = ChatMessage::new_fmt("a", "b", "short", 0);
    assert_eq!(message_reference(&plain), None);
    let timed = plain.clone().with_irc_metadata(Some("2024-01-01T00:00:00.000Z".to_string()), None, None);
    assert_eq!(message_reference(&timed).as_deref(), Some("timestamp=2024-01-01T00:00:00.000Z"));
    let both = timed.with_irc_metadata(Some("2024-01-01T00:00:00.000Z".to_string()), Some("xyz".to_string()), None);
    assert_eq!(message_reference(&both).as_deref(), Some("msgid=xyz"));
}

#[test]
fn own_credential_lines_are_redacted_for_display() {
    let support = NetworkSupport::default();
    let msg = ChatMessage::new_fmt("Me", "identify hunter2", "short", 0);
    let shown = redact_own_credentials(msg.clone(), "NickServ", &support, "me");
    assert_eq!(shown.content, "<credential command sent>");
    assert!(shown.no_log);
    let theirs = redact_own_credentials(msg.clone(), "NickServ", &support, "other");
    assert_eq!(theirs.content, "identify hunter2");
    let chat = redact_own_credentials(msg, "#rust", &support, "me");
    assert_eq!(chat.content, "identify hunter2");
    assert!(!chat.no_log);
}

#[test]
fn query_windows_are_capped_but_channels_are_not() {
    let support = NetworkSupport::default();
    let mut names: Vec<String> = (0..199).map(|i| format!("user{i}")).collect();
    names.push("#chan".to_string());
    assert!(new_window_allowed(&support, &names, "newbie"));
    names.push("user199".to_string());
    assert!(!new_window_allowed(&support, &names, "newbie"));
    assert!(new_window_allowed(&support, &names, "#another"));
}

fn strings(xs: &[&str]) -> Vec<String> {
    xs.iter().map(|s| s.to_string()).collect()
}

#[test]
fn rpl_list_keeps_numeric_topics_from_becoming_user_counts() {
    let (name, count, topic) = parse_list_reply(&strings(&["me", "#general", "12", "2024"])).unwrap();
    assert_eq!(name, "#general");
    assert_eq!(count, 12, "topic must not overwrite the count");
    assert_eq!(topic, "2024", "numeric topic must be kept");

    let (_, count, topic) = parse_list_reply(&strings(&["me", "#other", "5", "hello world"])).unwrap();
    assert_eq!(count, 5);
    assert_eq!(topic, "hello world");
}

#[test]
fn list_reply_single_param_after_channel_is_count_or_topic() {
    assert_eq!(
        parse_list_reply(&strings(&["me", "#chan", "42"])),
        Some(("#chan".to_string(), 42, String::new()))
    );
    assert_eq!(
        parse_list_reply(&strings(&["me", "#chan", "no count"])),
        Some(("#chan".to_string(), 0, "no count".to_string()))
    );
    // Thousands separators and a leading plus are accepted in the count.
    assert_eq!(
        parse_list_reply(&strings(&["me", "&local", "+1,234", "t"])),
        Some(("&local".to_string(), 1234, "t".to_string()))
    );
    // No channel-looking parameter: standard positions, or nothing.
    assert_eq!(
        parse_list_reply(&strings(&["me", "chan", "7", "topic"])),
        Some(("chan".to_string(), 7, "topic".to_string()))
    );
    assert_eq!(parse_list_reply(&strings(&["me", "chan"])), None);
    assert_eq!(parse_list_reply(&strings(&["me", "#only"])), None);
}

#[test]
fn list_count_parsing() {
    assert_eq!(parse_count("1,024"), Some(1024));
    assert_eq!(parse_count("++9"), Some(9));
    assert_eq!(parse_count("1+2"), None);
    assert_eq!(parse_count(""), None);
    assert_eq!(parse_count("abc"), None);
}

fn history_with(input: &str) -> InputHistory {
    InputHistory {
        command_history: Vec::new(),
        history_index: None,
        history_temp: String::new(),
        input_text: input.to_string(),
    }
}

#[test]
fn credential_commands_never_enter_history_search_or_local_scrollback() {
    let mut h = history_with("");
    for input in [
        "IDENTIFY hunter2",
        "/say IDENTIFY hunter3",
        "/msg NickServ IDENTIFY hunter4",
        "/query NickServ IDENTIFY hunter5",
        "/ns IDENTIFY hunter6",
        "/notice NickServ IDENTIFY hunter7",
    ] {
        h.input_text = input.to_string();
        let line = h.submit(Some("NickServ"));
        assert_eq!(line, input);
        assert!(h.input_text.is_empty());
    }
    assert!(h.command_history.is_empty());

    // Local echoes of what was sent to the service hide the secret.
    let echo = linefeed::commands::outgoing_local_echo("NickServ", "me", "IDENTIFY hunter4", "short", 0);
    assert!(echo.no_log);
    assert_eq!(echo.content, "<credential command sent>");
}

#[test]
fn submitted_lines_are_recorded_once_and_capped() {
    let mut h = history_with("  /join #a  ");
    assert_eq!(h.submit(None), "/join #a");
    h.input_text = "/join #a".to_string();
    h.submit(None);
    assert_eq!(h.command_history, vec!["/join #a".to_string()]);
    h.input_text = "   ".to_string();
    assert_eq!(h.submit(None), "");
    assert_eq!(h.input_text, "   ");
    for i in 0..120 {
        h.input_text = format!("line {}", i);
        h.submit(Some("#chan"));
    }
    assert_eq!(h.command_history.len(), 100);
    assert_eq!(h.command_history.last().unwrap(), "line 119");
    h.history_up();
    assert_eq!(h.input_text, "line 119");
}

#[test]
fn disconnect_command_stops_reconnect_loop_without_touching_setting() {
    let mut app = linefeed::client::ClientState::with_settings(linefeed::client::ClientSettings {
        nickname: "me".to_string(),
        hide_join_part: false,
        ignore_list: vec![],
        highlight_words: String::new(),
        auto_join: String::new(),
        auto_perform: String::new(),
        set_invisible: false,
        auto_reconnect: true,
        reconnect_delay_secs: 5,
        max_reconnect_attempts: 10,
    });
    app.session.reconnect.connection_lost = true;
    app.session.reconnect.auto_reconnect = true;
    app.session.channel_list_loading = true;

    let ctx = linefeed::slash::CommandContext {
        current_channel: None,
        my_nick: "me".to_string(),
        quit_message: String::new(),
        part_message: String::new(),
        server_port: "6667".to_string(),
        list_min_users: 0,
    };
    let plan = linefeed::slash::plan_command("/disconnect", &ctx, &NetworkSupport::default());
    app.apply_plan(plan);

    assert!(!app.session.reconnect.connection_lost);
    assert!(!app.session.reconnect.should_reconnect(None));
    assert!(!app.session.channel_list_loading);
    assert!(app.session.reconnect.auto_reconnect, "persisted setting must not be flipped");
    assert_eq!(app.session.intent, ConnectionIntent::ManualDisconnect);
}

#[test]
fn fatal_registration_error_clears_connecting() {
    let reply = linefeed::incoming::registration_error(
        464,
        false,
        &["nick".to_string(), "Password incorrect".to_string()],
    );
    match reply {
        linefeed::incoming::RegistrationReply::Fail(text) => assert!(text.contains("Registration failed")),
        other => panic!("expected a failure, got {:?}", other),
    }
}

#[test]
fn highlight_and_ignore_keys_are_case_mapped() {
    let support = NetworkSupport::default();
    assert_eq!(
        linefeed::session::highlight_keys(&support, " Rust , ,[Ferris]"),
        vec!["rust".to_string(), "{ferris}".to_string()]
    );
    assert!(linefeed::session::highlight_keys(&support, "").is_empty());
    assert_eq!(
        linefeed::session::ignore_keys(&support, &["Spam*".to_string(), "X!*@*".to_string()]),
        vec!["spam*".to_string(), "x!*@*".to_string()]
    );
    assert_eq!(linefeed::session::initial_nickname("mike"), "mike");
    let generated = linefeed::session::initial_nickname("");
    assert!(generated.starts_with("Linefeed_"));
    let n: u32 = generated["Linefeed_".len()..].parse().unwrap();
    assert!(n < 10000);
}

#[test]
fn clock_suffix_keeps_the_last_four_digits() {
    assert_eq!(linefeed::session::millis_suffix(1_700_000_123_456), 3456);
    assert_eq!(linefeed::session::millis_suffix(42), 42);
}

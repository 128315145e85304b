use linefeed::logging::{
    current_datetime_string, datetime_string, encoded_path_component, format_log_line, last_lines,
    legacy_log_file_components, legacy_migration_allowed, log_file_components, parse_history,
    parse_log_line, redact_sensitive_history, sanitize_filename, sanitize_log_field, should_log_message,
    split_timestamp,
};
use linefeed::ChatMessage;

fn msg(ts: &str, sender: &str, content: &str, system: bool, action: bool) -> ChatMessage {
    ChatMessage {
        timestamp: ts.to_string(),
        server_time: None,
        msgid: None,
        account: None,
        oper: None,
        reply_to: None,
        sender: sender.to_string(),
        content: content.to_string(),
        is_action: action,
        is_system: system,
        is_highlight: false,
        no_log: false,
    }
}

fn round_trip(m: &ChatMessage) -> ChatMessage {
    parse_log_line(&format_log_line(m)).expect("log line should round-trip")
}

#[test]
fn full_format_with_space_round_trips() {
    let p = round_trip(&msg("[06-14 09:30]", "alice", "hello world", false, false));
    assert_eq!(p.timestamp, "[06-14 09:30]");
    assert_eq!(p.sender, "alice");
    assert_eq!(p.content, "hello world");
    assert!(!p.is_system && !p.is_action);
}

#[test]
fn short_and_long_formats_round_trip() {
    let p = round_trip(&msg("[09:30]", "bob", "hi there", false, false));
    assert_eq!(p.timestamp, "[09:30]");
    assert_eq!(p.sender, "bob");
    assert_eq!(p.content, "hi there");

    let p = round_trip(&msg("[09:30:15]", "bob", "hi", false, false));
    assert_eq!(p.timestamp, "[09:30:15]");
}

#[test]
fn system_and_action_round_trip() {
    let p = round_trip(&msg("[06-14 09:30]", "*", "x has joined", true, false));
    assert!(p.is_system);
    assert_eq!(p.content, "x has joined");

    let p = round_trip(&msg("[06-14 09:30]", "carol", "waves around", false, true));
    assert!(p.is_action);
    assert_eq!(p.sender, "carol");
    assert_eq!(p.content, "waves around");
}

#[test]
fn sanitize_filename_blocks_traversal() {
    assert_eq!(sanitize_filename(".."), "_");
    assert_eq!(sanitize_filename("."), "_");
    assert_eq!(sanitize_filename("..."), "_");
    assert_eq!(sanitize_filename("a/b"), "a_b");
    // '/' maps to '_' and the leading dots are stripped -> safe single component.
    assert_eq!(sanitize_filename("../etc"), "_etc");
    assert_eq!(sanitize_filename("normal"), "normal");
    assert_eq!(sanitize_filename("#channel"), "#channel");
}

#[test]
fn sanitize_filename_blocks_windows_device_names() {
    assert_eq!(sanitize_filename("nul"), "_nul");
    assert_eq!(sanitize_filename("NUL"), "_NUL");
    assert_eq!(sanitize_filename("CoN"), "_CoN");
    assert_eq!(sanitize_filename("com1"), "_com1");
    assert_eq!(sanitize_filename("LPT9"), "_LPT9");
    // The stem before the first dot is what Windows reserves.
    assert_eq!(sanitize_filename("nul.chan"), "_nul.chan");
    // Non-reserved lookalikes pass through.
    assert_eq!(sanitize_filename("nullable"), "nullable");
    assert_eq!(sanitize_filename("com10"), "com10");
    assert_eq!(sanitize_filename("console"), "console");
}

#[test]
fn sanitize_filename_trims_and_replaces() {
    assert_eq!(sanitize_filename("  a:b*c?  "), "a_b_c_");
    assert_eq!(sanitize_filename(""), "_");
    assert_eq!(sanitize_filename(" .hidden"), "hidden");
}

#[test]
fn encoded_components_do_not_collapse_distinct_targets_or_endpoints() {
    assert_ne!(
        log_file_components("tls:irc.example:6697", "#a/b"),
        log_file_components("tls:irc.example:6697", "#a?b")
    );
    assert_ne!(
        log_file_components("tls:irc.example:6697", "#room"),
        log_file_components("tls:irc.example:7000", "#room")
    );
    assert_ne!(
        log_file_components("tls:IRC.example:6697", "#room"),
        log_file_components("tls:irc.example:6697", "#room")
    );
}

#[test]
fn encoded_component_has_readable_prefix_and_fnv_hash() {
    // FNV-1a of the empty string is the offset basis.
    assert_eq!(encoded_path_component(""), "_~cbf29ce484222325");
    // FNV-1a("a") = 0xaf63dc4c8601ec8c
    assert_eq!(encoded_path_component("a"), "a~af63dc4c8601ec8c");
    let long = "x".repeat(100);
    let enc = encoded_path_component(&long);
    assert!(enc.starts_with(&"x".repeat(80)));
    assert_eq!(enc.chars().count(), 80 + 1 + 16);
}

#[test]
fn log_file_names_end_in_log() {
    let (dir, file) = log_file_components("net", "#chan");
    assert!(dir.starts_with("net~"));
    assert!(file.starts_with("#chan~") && file.ends_with(".log"));
    let (dir, file) = legacy_log_file_components("irc.example", "#room");
    assert_eq!(dir, "irc.example");
    assert_eq!(file, "#room.log");
}

#[test]
fn log_lines_cannot_be_forged_via_newlines() {
    let mut bad = msg("[09:30]", "alice", "hello", false, false);
    bad.content = "hello\n09:31 <ops> you are banned".to_string();
    let line = format_log_line(&bad);
    assert!(!line.contains('\n'));
    assert!(!line.contains('\r'));
}

#[test]
fn sanitize_log_field_replaces_line_breaks() {
    assert_eq!(sanitize_log_field("a\r\nb"), "a  b");
    assert_eq!(sanitize_log_field("plain"), "plain");
}

#[test]
fn split_timestamp_handles_dates() {
    assert_eq!(split_timestamp("09:30 <a> b"), Some(("09:30".to_string(), "<a> b")));
    assert_eq!(split_timestamp("06-14 09:30 <a> b"), Some(("06-14 09:30".to_string(), "<a> b")));
    assert_eq!(split_timestamp("nospace"), None);
    assert_eq!(split_timestamp("06-14 only"), None);
}

#[test]
fn parse_rejects_markers_and_malformed_lines() {
    assert!(parse_log_line("--- Log opened Thu Jan  1 00:00:00 1970").is_none());
    assert!(parse_log_line("09:30 <unterminated").is_none());
    assert!(parse_log_line("09:30 * lonely").is_none());
    assert!(parse_log_line("09:30 plain text").is_none());
}

#[test]
fn history_takes_last_lines_and_redacts_credentials() {
    let text = "09:29 <me> old\r\n--- Log opened x\n09:30 <me> IDENTIFY secret\n09:31 * me waves\n";
    let all = parse_history(text, "NickServ", 10);
    assert_eq!(all.len(), 3);
    assert_eq!(all[0].content, "old");
    assert_eq!(all[1].content, "<credential command redacted>");
    assert!(all[1].no_log);
    assert!(all[2].is_action);
    let last = parse_history(text, "NickServ", 1);
    assert_eq!(last.len(), 1);
    assert_eq!(last[0].content, "waves");
}

#[test]
fn last_lines_follows_str_lines() {
    assert_eq!(last_lines("a\r\nb\nc", 2), vec!["b".to_string(), "c".to_string()]);
    assert_eq!(last_lines("a\n\nb\n", 5), vec!["a".to_string(), "".to_string(), "b".to_string()]);
    assert_eq!(last_lines("", 5), Vec::<String>::new());
    assert_eq!(last_lines("x\r", 5), vec!["x\r".to_string()]);
}

#[test]
fn redaction_only_touches_credential_commands() {
    let mut v = vec![msg("[1]", "me", "IDENTIFY pw", false, false), msg("[2]", "me", "hi", false, false)];
    redact_sensitive_history("NickServ", &mut v);
    assert_eq!(v[0].content, "<credential command redacted>");
    assert!(v[0].no_log);
    assert_eq!(v[1].content, "hi");
    assert!(!v[1].no_log);
}

#[test]
fn session_marker_date_format() {
    assert_eq!(datetime_string(0), "Thu Jan  1 00:00:00 1970");
    assert_eq!(datetime_string(1709647629), "Tue Mar  5 14:07:09 2024");
    assert_eq!(datetime_string(1700000000), "Tue Nov 14 22:13:20 2023");
    assert_eq!(current_datetime_string().len(), 24);
}

#[test]
fn logging_and_migration_decisions() {
    let secret = msg("[1]", "me", "IDENTIFY pw", false, false);
    let plain = msg("[1]", "me", "hi", false, false);
    assert!(!should_log_message(true, "NickServ", &secret));
    assert!(should_log_message(true, "#chan", &plain));
    assert!(!should_log_message(false, "#chan", &plain));
    assert!(legacy_migration_allowed("irc.example", "#room", true));
    assert!(!legacy_migration_allowed("irc.example", "#a/b", true));
    assert!(!legacy_migration_allowed("irc.example", "#room", false));
}

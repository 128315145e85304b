use linefeed::caps::{cap_request_lines, CapState};
use linefeed::NetworkSupport;

fn strings(items: &[&str]) -> Vec<String> {
    items.iter().map(|s| s.to_string()).collect()
}

fn desired() -> Vec<String> {
    strings(&[
        "account-notify",
        "away-notify",
        "batch",
        "chghost",
        "draft/chathistory",
        "draft/multiline",
        "draft/webpush",
        "echo-message",
        "extended-join",
        "message-tags",
        "multi-prefix",
        "server-time",
        "setname",
        "userhost-in-names",
    ])
}

#[test]
fn cap_new_requests_newly_available_nefarious_features() {
    let mut caps = CapState::new();
    let mut support = NetworkSupport::default();
    let newly = caps.handle_cap_message(
        &mut support,
        &desired(),
        "NEW",
        &strings(&["me", "draft/chathistory=20 draft/webpush=vapid-key"]),
    );
    assert_eq!(cap_request_lines(&newly), vec!["draft/chathistory draft/webpush".to_string()]);
    assert_eq!(caps.chathistory_limit, Some(20));
}

#[test]
fn cap_new_splits_the_full_supported_set_into_valid_lines() {
    let mut wanted = desired();
    for i in 0..60 {
        wanted.push(format!("vendor.example/feature-number-{i:02}"));
    }
    let mut caps = CapState::new();
    let mut support = NetworkSupport::default();
    let newly = caps.handle_cap_message(&mut support, &wanted, "NEW", &[wanted.join(" ")]);
    let lines = cap_request_lines(&newly);
    assert!(lines.len() > 1);
    let mut requested = Vec::new();
    for line in &lines {
        assert!("CAP REQ :".len() + line.len() <= 510);
        requested.extend(line.split_whitespace().map(str::to_string));
    }
    assert_eq!(requested, wanted);
}

#[test]
fn nefarious_bare_chathistory_cap_value_sets_page_limit() {
    let mut caps = CapState::new();
    let mut support = NetworkSupport::default();
    caps.handle_cap_message(&mut support, &desired(), "LS", &strings(&["me", "*", "draft/chathistory=37"]));
    assert_eq!(caps.chathistory_limit, Some(37));
}

#[test]
fn cap_ack_nak_and_del_track_enabled_capabilities() {
    let mut caps = CapState::new();
    let mut support = NetworkSupport::default();
    caps.handle_cap_message(&mut support, &desired(), "ACK", &strings(&["me", "Echo-Message server-time draft/chathistory"]));
    assert_eq!(caps.enabled_caps, strings(&["echo-message", "server-time", "draft/chathistory"]));
    assert!(caps.chathistory_enabled);
    caps.handle_cap_message(&mut support, &desired(), "ack", &strings(&["me", "server-time -echo-message"]));
    assert_eq!(caps.enabled_caps, strings(&["server-time", "draft/chathistory"]));
    caps.handle_cap_message(&mut support, &desired(), "DEL", &strings(&["me", "draft/chathistory"]));
    assert_eq!(caps.enabled_caps, strings(&["server-time"]));
    assert!(!caps.chathistory_enabled);
    caps.handle_cap_message(&mut support, &desired(), "NAK", &strings(&["me", "server-time"]));
    assert!(caps.enabled_caps.is_empty());
    // Nothing to read without parameters.
    assert!(caps.handle_cap_message(&mut support, &desired(), "NEW", &[]).is_empty());
}

#[test]
fn cap_values_set_history_and_multiline_limits() {
    let mut caps = CapState::new();
    let mut support = NetworkSupport::default();
    caps.handle_cap_message(
        &mut support,
        &desired(),
        "LS",
        &strings(&["me", "draft/chathistory=foo,limit=0,limit=50 draft/multiline=max-bytes=4096,max-lines=24"]),
    );
    assert_eq!(caps.chathistory_limit, Some(50));
    assert_eq!(support.multiline_max_bytes, Some(4096));
    assert_eq!(support.multiline_max_lines, Some(24));
    caps.handle_cap_message(&mut support, &desired(), "LS", &strings(&["me", "draft/multiline=max-bytes=x"]));
    assert_eq!(support.multiline_max_bytes, None);
    assert_eq!(support.multiline_max_lines, Some(24));
    // Already-enabled capabilities are not offered again.
    caps.handle_cap_message(&mut support, &desired(), "ACK", &strings(&["me", "batch"]));
    let newly = caps.handle_cap_message(&mut support, &desired(), "NEW", &strings(&["me", "batch setname unknown"]));
    assert_eq!(newly, strings(&["setname"]));
}

#[test]
fn cap_request_lines_keep_long_names_alone() {
    let long = "x".repeat(600);
    let lines = cap_request_lines(&strings(&["a", &long, "b", "c"]));
    assert_eq!(lines, vec!["a".to_string(), long.clone(), "b c".to_string()]);
    assert!(cap_request_lines(&[]).is_empty());
}

use linefeed::ctcp::{ctcp_reply, handle_ctcp_request, PROJECT_SOURCE_URL};

fn answer(content: &str) -> Option<(Option<String>, String)> {
    handle_ctcp_request("peer", content, "Real Name", true, "1.2.3", "2024-01-02 03:04:05")
        .map(|o| (o.reply, o.note))
}

#[test]
fn ctcp_source_and_clientinfo_advertise_supported_metadata() {
    let (reply, _) = answer("\x01SOURCE\x01").unwrap();
    assert_eq!(reply, Some(format!("\x01SOURCE {}\x01", PROJECT_SOURCE_URL)));
    let (reply, _) = answer("\x01CLIENTINFO\x01").unwrap();
    assert!(reply.unwrap().contains("SOURCE"));
}

#[test]
fn ctcp_known_requests_are_answered_and_noted() {
    let (reply, note) = answer("\x01version\x01").unwrap();
    assert_eq!(reply.as_deref(), Some("\x01VERSION Linefeed v1.2.3 - Rust/egui cross-platform IRC client\x01"));
    assert_eq!(note, "[CTCP] VERSION from peer - replied");
    let (reply, _) = answer("\x01PING 12345 678\x01").unwrap();
    assert_eq!(reply.as_deref(), Some("\x01PING 12345 678\x01"));
    let (reply, _) = answer("\x01TIME\x01").unwrap();
    assert_eq!(reply.as_deref(), Some("\x01TIME 2024-01-02 03:04:05\x01"));
    let (reply, _) = answer("\x01USERINFO\x01").unwrap();
    assert_eq!(reply.as_deref(), Some("\x01USERINFO Real Name\x01"));
}

#[test]
fn ctcp_disabled_unknown_and_non_requests() {
    let outcome = handle_ctcp_request("peer", "\x01PING x\x01", "", false, "1", "t").unwrap();
    assert_eq!(outcome.reply, None);
    assert_eq!(outcome.note, "[CTCP] PING from peer - ignored (replies disabled)");
    let (reply, note) = answer("\x01FINGER\x01").unwrap();
    assert_eq!(reply, None);
    assert_eq!(note, "[CTCP] Unknown FINGER from peer");
    assert!(answer("\x01ACTION waves\x01").is_none());
    assert!(answer("\x01").is_none());
    assert!(answer("hello").is_none());
    assert!(answer("\x01PING").is_none());
    assert_eq!(ctcp_reply("NOPE", "", "", "", ""), None);
}

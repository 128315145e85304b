use linefeed::batches::{AuthtokenBatch, MultilineBatch};
use linefeed::outgoing::{plan_text_command, TextPlan};
use linefeed::NetworkSupport;

fn batch(target: &str, sender: &str) -> MultilineBatch {
    MultilineBatch::new(
        target.to_string(),
        sender.to_string(),
        None,
        Some("2026-09-12T12:00:00.000Z".to_string()),
        Some("ml1".to_string()),
        None,
        None,
        None,
    )
}

#[test]
fn multiline_batches_preserve_newline_and_concat_semantics() {
    let mut b = batch("#room", "alice");
    b.collect_line("one", false, false);
    b.collect_line("two", false, true);
    b.collect_line("three", false, false);
    let message = b.into_message("short", 0);
    assert_eq!(message.content, "onetwo\nthree");
    assert_eq!(message.msgid.as_deref(), Some("ml1"));
    assert_eq!(message.server_time.as_deref(), Some("2026-09-12T12:00:00.000Z"));
    assert_eq!(message.sender, "alice");
    assert!(!message.is_action && !message.is_system);
}

#[test]
fn authtoken_chunks_are_joined_into_one_usable_token() {
    let mut b = AuthtokenBatch { service: "web-api".to_string(), token: String::new() };
    let params = |chunk: &str| vec!["GENERATE".to_string(), "*".to_string(), chunk.to_string()];
    assert!(b.collect_line("TOKEN", &params("abc")));
    assert!(b.collect_line("token", &params("def")));
    assert!(!b.collect_line("PRIVMSG", &params("zzz")));
    let message = b.into_message("short", 0).unwrap();
    assert_eq!(message.content, "[TOKEN GENERATE web-api] abcdef");
    assert!(message.no_log);
    let empty = AuthtokenBatch { service: "x".to_string(), token: String::new() };
    assert!(empty.into_message("short", 0).is_none());
}

#[test]
fn multiline_notices_actions_and_destinations() {
    let mut n = batch("#room", "bob");
    n.collect_line("hi", true, false);
    let notice = n.into_message("short", 0);
    assert_eq!(notice.content, "-bob- hi");
    assert!(notice.is_system);

    let mut a = batch("#room", "bob");
    a.collect_line("\x01ACTION waves", false, false);
    a.collect_line(" twice\x01", false, true);
    let action = a.into_message("short", 0);
    assert!(action.is_action);
    assert_eq!(action.content, "waves twice");

    let support = NetworkSupport::default();
    assert_eq!(batch("@#room", "bob").destination(&support, "me"), "#room");
    assert_eq!(batch("Me", "bob").destination(&support, "me"), "bob");
    assert_eq!(batch("other", "bob").destination(&support, "me"), "other");
}

#[test]
fn a_sent_batch_reassembles_to_the_text() {
    let text = format!("first line\n\n{}\nlast", "x".repeat(700));
    let TextPlan::Batch(lines) = plan_text_command("PRIVMSG", "#room", &text, "", "", true, None, None, "lf9").unwrap()
    else {
        panic!("expected a batch");
    };
    let mut b = batch("#room", "me");
    for (line, concat) in &lines {
        b.collect_line(line, false, *concat);
    }
    assert_eq!(b.content, text);
}

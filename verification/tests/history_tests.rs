use linefeed::history::{history_page_outcome, HistoryDirection, HistoryPlacement, PendingHistoryRequest};
use linefeed::session::total_history_limit;
use linefeed::{Channel, ChatMessage};

fn tagged(sender: &str, content: &str, time: &str, msgid: Option<&str>) -> ChatMessage {
    ChatMessage::new_fmt(sender, content, "short", 0).with_irc_metadata(
        Some(time.to_string()),
        msgid.map(str::to_string),
        None,
    )
}

#[test]
fn joining_asks_for_the_latest_backlog() {
    let channel = Channel::new();
    let total = total_history_limit(None, 1000, 1000);
    let (reference, request) = channel.latest_history_request(HistoryPlacement::Prepend, total, None);
    assert_eq!(reference, "*");
    assert_eq!(request.direction, HistoryDirection::Before);
    assert_eq!(request.page_limit, 100);
    assert_eq!(request.remaining, 1000);
    assert_eq!(request.loaded, 0);
}

#[test]
fn reconnect_requests_history_after_last_seen_msgid() {
    let mut channel = Channel::new();
    channel.messages.push_back(tagged("alice", "last seen", "2026-09-12T12:00:00.000Z", Some("42-last")));
    channel.messages.push_back(ChatMessage::new_fmt("me", "local only", "short", 0));
    let (reference, request) = channel.latest_history_request(HistoryPlacement::Append, 1000, None);
    assert_eq!(reference, "msgid=42-last");
    assert_eq!(request.direction, HistoryDirection::After);
    let bare = Channel::new();
    let (reference, request) = bare.latest_history_request(HistoryPlacement::Append, 10, Some(5));
    assert_eq!(reference, "*");
    assert_eq!(request.direction, HistoryDirection::Before);
    assert_eq!(request.page_limit, 5);
}

#[test]
fn chathistory_pages_backward_until_requested_limit() {
    let request = PendingHistoryRequest {
        placement: HistoryPlacement::Prepend,
        direction: HistoryDirection::Before,
        remaining: 5,
        loaded: 0,
        page_limit: 2,
    };
    let page = vec![
        tagged("a", "old", "2026-09-12T12:00:00.000Z", Some("old")),
        tagged("b", "new", "2026-09-12T12:01:00.000Z", Some("new")),
    ];
    let (reference, next) = history_page_outcome(request, &page, false, false, Some(2)).unwrap();
    assert_eq!(reference, "msgid=old");
    assert_eq!(next.remaining, 3);
    assert_eq!(next.loaded, 2);
    assert_eq!(next.page_limit, 2);

    let short_page = vec![tagged("a", "only", "2026-09-12T11:00:00.000Z", Some("x"))];
    let status = history_page_outcome(next, &short_page, false, false, Some(2)).unwrap_err();
    assert_eq!(status, "--- 3 lines of server history loaded ---");
    let partial = history_page_outcome(next, &page, false, true, Some(2)).unwrap_err();
    assert_eq!(partial, "--- 4 lines of server history loaded --- (server reports a partial result)");
    let untagged = vec![ChatMessage::new_fmt("a", "x", "short", 0), ChatMessage::new_fmt("b", "y", "short", 0)];
    let more = history_page_outcome(next, &untagged, false, false, Some(2)).unwrap_err();
    assert_eq!(more, "--- 4 lines of server history loaded --- (more history is available)");
    let none = history_page_outcome(request, &Vec::new(), true, false, None).unwrap_err();
    assert_eq!(none, "--- No server history available ---");
}

#[test]
fn chathistory_batch_is_prepended_without_unread_or_logging() {
    let mut channel = Channel::new();
    channel.messages.push_back(ChatMessage::system_fmt("live row", "short", 0));
    let request = PendingHistoryRequest {
        placement: HistoryPlacement::Prepend,
        direction: HistoryDirection::Before,
        remaining: 20,
        loaded: 0,
        page_limit: 20,
    };
    let page = vec![tagged("alice", "old row", "2026-09-12T12:00:00.000Z", None).without_logging()];
    let status = history_page_outcome(request, &page, true, false, None).unwrap_err();
    let mut history = vec![ChatMessage::system_fmt(&status, "short", 0).without_logging()];
    history.extend(page);
    channel.merge_history(HistoryPlacement::Prepend, history, 20);
    let contents: Vec<&str> = channel.messages.iter().map(|m| m.content.as_str()).collect();
    assert_eq!(contents, ["--- 1 line of server history loaded ---", "old row", "live row"]);
    assert!(channel.messages[1].no_log);
    assert_eq!(channel.unread, 0);
}

#[test]
fn merged_history_skips_known_ids_and_keeps_the_newest_lines() {
    let mut channel = Channel::new();
    channel.messages.push_back(tagged("a", "seen", "t1", Some("m1")));
    let page = vec![tagged("a", "again", "t1", Some("m1")), tagged("b", "fresh", "t2", Some("m2"))];
    channel.merge_history(HistoryPlacement::Append, page, 10);
    let contents: Vec<&str> = channel.messages.iter().map(|m| m.content.as_str()).collect();
    assert_eq!(contents, ["seen", "fresh"]);
    let more: Vec<ChatMessage> = (0..5).map(|i| tagged("c", &format!("n{i}"), "t", None)).collect();
    channel.merge_history(HistoryPlacement::Append, more, 3);
    let contents: Vec<&str> = channel.messages.iter().map(|m| m.content.as_str()).collect();
    assert_eq!(contents, ["n2", "n3", "n4"]);
}

#[test]
fn selected_live_message_advances_the_server_read_marker() {
    let mut channel = Channel::new();
    assert_eq!(channel.pending_read_marker(), None);
    channel.messages.push_back(tagged("a", "x", "2026-09-12T12:00:00.000Z", Some("m1")));
    channel.messages.push_back(ChatMessage::new_fmt("me", "local", "short", 0));
    let marker = channel.pending_read_marker().unwrap();
    assert_eq!(marker, "timestamp=2026-09-12T12:00:00.000Z");
    channel.read_marker = Some(marker);
    assert_eq!(channel.pending_read_marker(), None);
    channel.messages.push_back(tagged("b", "y", "2026-09-12T12:05:00.000Z", None));
    assert_eq!(channel.pending_read_marker().as_deref(), Some("timestamp=2026-09-12T12:05:00.000Z"));
}

use linefeed::outgoing::{normalize_newlines, plan_text_command, TextPlan, TextPlanError};

fn lines(items: &[&str]) -> Vec<String> {
    items.iter().map(|s| s.to_string()).collect()
}

#[test]
fn outbound_multiline_uses_a_tagged_batch() {
    let plan = plan_text_command("PRIVMSG", "#room", "one\ntwo", "", "", true, None, None, "lf1").unwrap();
    assert_eq!(plan, TextPlan::Batch(vec![("one".to_string(), false), ("two".to_string(), false)]));
}

#[test]
fn without_multiline_each_line_goes_alone() {
    let plan = plan_text_command("PRIVMSG", "#room", "one\r\ntwo\rthree", "", "", false, None, None, "lf1").unwrap();
    assert_eq!(plan, TextPlan::Lines(lines(&["one", "two", "three"])));
    let single = plan_text_command("PRIVMSG", "#room", "hello", "", "", true, None, None, "lf1").unwrap();
    assert_eq!(single, TextPlan::Lines(lines(&["hello"])));
    let action = plan_text_command("PRIVMSG", "#room", "waves", "\x01ACTION ", "\x01", false, None, None, "x").unwrap();
    assert_eq!(action, TextPlan::Lines(lines(&["\x01ACTION waves\x01"])));
}

#[test]
fn long_lines_are_cut_and_continued_in_a_batch() {
    let text = "a".repeat(600);
    let plan = plan_text_command("PRIVMSG", "#room", &text, "", "", true, None, None, "lf7").unwrap();
    let overhead = "@batch=lf7;draft/multiline-concat PRIVMSG #room :".len();
    let first = "a".repeat(510 - overhead);
    let second = "a".repeat(600 - (510 - overhead));
    assert_eq!(plan, TextPlan::Batch(vec![(first, false), (second, true)]));

    let plain = plan_text_command("PRIVMSG", "#room", &text, "", "", false, None, None, "lf7").unwrap();
    let room = 510 - "PRIVMSG #room :".len();
    assert_eq!(plain, TextPlan::Lines(vec!["a".repeat(room), "a".repeat(600 - room)]));
}

#[test]
fn multiline_limits_fall_back_to_single_lines() {
    let too_big = plan_text_command("PRIVMSG", "#r", "one\ntwo", "", "", true, Some(5), None, "b").unwrap();
    assert_eq!(too_big, TextPlan::Lines(lines(&["one", "two"])));
    let too_many = plan_text_command("PRIVMSG", "#r", "a\nb\nc", "", "", true, None, Some(2), "b").unwrap();
    assert_eq!(too_many, TextPlan::Lines(lines(&["a", "b", "c"])));
    let blank = plan_text_command("NOTICE", "#r", "a\n\nb", "", "", true, None, Some(3), "b").unwrap();
    assert_eq!(blank, TextPlan::Batch(vec![("a".to_string(), false), (String::new(), false), ("b".to_string(), false)]));
}

#[test]
fn targets_leaving_no_room_are_refused() {
    let target = "#".repeat(600);
    assert_eq!(
        plan_text_command("PRIVMSG", &target, "hi", "", "", true, None, None, "b"),
        Err(TextPlanError::NoRoomForText)
    );
    let id = "x".repeat(480);
    assert_eq!(
        plan_text_command("PRIVMSG", "#room", "one\ntwo", "", "", true, None, None, &id),
        Err(TextPlanError::BatchUnsendable)
    );
}

#[test]
fn newline_normalization() {
    assert_eq!(normalize_newlines("a\r\nb\rc\n\r\r\n"), "a\nb\nc\n\n\n");
    assert_eq!(normalize_newlines(""), "");
}

use linefeed::presence::{lag_check_due, lag_from_elapsed, lag_label, lag_level, AwayAction, AwayState, LagLevel};

#[test]
fn idle_sets_auto_away_and_activity_clears_it() {
    let mut st = AwayState::new();
    assert!(st.step(false, true, true, 599, 10, "brb").is_empty());
    assert_eq!(st.away_status, None);
    assert_eq!(st.step(false, true, true, 600, 10, "brb"), vec![AwayAction::GoAway("brb".to_string())]);
    assert_eq!(st.away_status, Some("brb".to_string()));
    assert!(st.auto_away_triggered);
    assert!(st.step(false, true, true, 900, 10, "brb").is_empty());
    assert_eq!(st.step(true, true, true, 0, 10, "brb"), vec![AwayAction::ComeBack]);
    assert_eq!(st.away_status, None);
    assert!(!st.auto_away_triggered);
}

#[test]
fn manual_away_is_not_cleared_and_disabled_or_offline_does_nothing() {
    let mut st = AwayState { away_status: Some("lunch".to_string()), auto_away_triggered: false };
    assert!(st.step(true, true, true, 0, 10, "brb").is_empty());
    assert_eq!(st.away_status, Some("lunch".to_string()));
    let mut st = AwayState::new();
    assert!(st.step(false, false, true, 10_000, 1, "brb").is_empty());
    assert!(st.step(false, true, false, 10_000, 1, "brb").is_empty());
}

#[test]
fn lag_meter_probes_and_bands() {
    assert!(!lag_check_due(true, 29));
    assert!(lag_check_due(true, 30));
    assert!(!lag_check_due(false, 300));
    assert_eq!(lag_from_elapsed(250), 250);
    assert_eq!(lag_from_elapsed((1u128 << 32) + 7), 7);
    assert_eq!(lag_level(99), LagLevel::Good);
    assert_eq!(lag_level(100), LagLevel::Fair);
    assert_eq!(lag_level(299), LagLevel::Fair);
    assert_eq!(lag_level(300), LagLevel::Poor);
    assert_eq!(lag_label(42), "(42ms)");
}

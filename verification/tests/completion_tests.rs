use linefeed::completion::{
    cycle_tab, find_command_completions, find_nick_completions, handle_tab_completion, ordered_tabs,
    sort_by_key_stable,
};
use linefeed::{Channel, NetworkSupport, TabCompletion, UserMode};

fn channel_with(nicks: &[&str]) -> Channel {
    let mut channel = Channel::new();
    for nick in nicks {
        channel.add_user(nick, UserMode::Normal);
    }
    channel
}

#[test]
fn tab_completion_cycles_nicks_and_completes_commands() {
    let channel = channel_with(&["Alina", "Alice"]);
    let mut input = "Al".to_string();
    let mut tab: Option<TabCompletion> = None;
    handle_tab_completion(&mut input, &mut tab, Some(&channel));
    assert_eq!(input, "Alice: ");
    handle_tab_completion(&mut input, &mut tab, Some(&channel));
    assert_eq!(input, "Alina: ");
    handle_tab_completion(&mut input, &mut tab, Some(&channel));
    assert_eq!(input, "Alice: ");

    tab = None;
    input = "/jo".to_string();
    handle_tab_completion(&mut input, &mut tab, Some(&channel));
    assert_eq!(input, "/join ");
}

#[test]
fn tab_completion_survives_multi_byte_whitespace() {
    let channel = channel_with(&["Alice"]);
    for ws in ['\u{a0}', '\u{2003}', '\u{3000}'] {
        let mut tab: Option<TabCompletion> = None;
        let mut input = format!("hi{ws}Al");
        handle_tab_completion(&mut input, &mut tab, Some(&channel));
        let expected_base = format!("hi{ws}");
        assert_eq!(input, format!("{expected_base}Alice "));
    }
}

#[test]
fn tab_completion_without_word_or_candidate_changes_nothing() {
    let channel = channel_with(&["Alice"]);
    let mut tab: Option<TabCompletion> = None;
    let mut input = "hello ".to_string();
    handle_tab_completion(&mut input, &mut tab, Some(&channel));
    assert_eq!(input, "hello ");
    assert!(tab.is_none());
    input = "Zed".to_string();
    handle_tab_completion(&mut input, &mut tab, Some(&channel));
    assert_eq!(input, "Zed");
    assert!(tab.is_none());
    input = "Al".to_string();
    handle_tab_completion(&mut input, &mut tab, None);
    assert_eq!(input, "Al");
    assert!(tab.is_none());
    input = "/nosuchcommand".to_string();
    handle_tab_completion(&mut input, &mut tab, Some(&channel));
    assert!(tab.is_none());
}

#[test]
fn command_completion_ignores_ascii_case_and_keeps_list_order() {
    assert_eq!(find_command_completions("/WHO"), vec!["/who", "/whois", "/whowas"]);
    assert_eq!(find_command_completions("/un"), vec!["/unban", "/unignore"]);
    assert!(find_command_completions("/zz").is_empty());
    assert_eq!(find_command_completions("/").len(), 95);
}

#[test]
fn nick_completion_orders_case_insensitively() {
    let channel = channel_with(&["bob", "Bea", "carol", "BEN"]);
    assert_eq!(find_nick_completions(Some(&channel), "b"), vec!["Bea", "BEN", "bob"]);
    assert!(find_nick_completions(Some(&channel), "x").is_empty());
    assert!(find_nick_completions(None, "b").is_empty());
}

#[test]
fn sort_by_key_is_stable() {
    let items: Vec<(Vec<char>, String)> = vec![
        (vec!['b'], "b1".to_string()),
        (vec!['a'], "a1".to_string()),
        (vec!['b'], "b2".to_string()),
        (vec![], "empty".to_string()),
        (vec!['a'], "a2".to_string()),
    ];
    let out: Vec<String> = sort_by_key_stable(items).into_iter().map(|e| e.1).collect();
    assert_eq!(out, vec!["empty", "a1", "a2", "b1", "b2"]);
}

#[test]
fn ctrl_tab_navigation_wraps_in_both_directions() {
    let support = NetworkSupport::default();
    let tabs = ordered_tabs(&support, &["#b".to_string(), "#a".to_string()]);
    assert_eq!(tabs, vec![None, Some("#a".to_string()), Some("#b".to_string())]);

    let mut current: Option<String> = None;
    current = cycle_tab(&support, &tabs, current.as_deref(), false).unwrap();
    assert_eq!(current.as_deref(), Some("#a"));
    current = cycle_tab(&support, &tabs, current.as_deref(), false).unwrap();
    assert_eq!(current.as_deref(), Some("#b"));
    current = cycle_tab(&support, &tabs, current.as_deref(), false).unwrap();
    assert!(current.is_none());
    current = cycle_tab(&support, &tabs, current.as_deref(), true).unwrap();
    assert_eq!(current.as_deref(), Some("#b"));
}

#[test]
fn ctrl_tab_matches_names_under_the_case_mapping() {
    let support = NetworkSupport::default();
    let tabs = ordered_tabs(&support, &["#Rust".to_string(), "alice".to_string()]);
    assert_eq!(tabs, vec![None, Some("#Rust".to_string()), Some("alice".to_string())]);
    assert_eq!(cycle_tab(&support, &tabs, Some("#RUST"), false), Some(Some("alice".to_string())));
    // An unknown target counts as the first tab.
    assert_eq!(cycle_tab(&support, &tabs, Some("#gone"), true), Some(Some("alice".to_string())));
    assert_eq!(cycle_tab(&support, &Vec::new(), None, false), None);
}

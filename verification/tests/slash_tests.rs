use linefeed::caps::CapState;
use linefeed::session::history_page_limit;
use linefeed::slash::{
    add_ignore, add_perform, auto_join_targets, auto_perform_commands, command_kind, perform_command_line, lastlog, perform_listing, plan_command, remove_ignore, split_command_line,
    text_lines_exec, CommandContext, CommandKind, CommandPlan, IrcCommand,
};
use linefeed::ChatMessage;
use std::collections::VecDeque;
use linefeed::NetworkSupport;

type Plan = CommandPlan<String, Vec<String>>;
type Cmd = IrcCommand<String, Vec<String>>;

fn ctx(current: Option<&str>) -> CommandContext {
    CommandContext {
        current_channel: current.map(|c| c.to_string()),
        my_nick: "me".to_string(),
        quit_message: String::new(),
        part_message: String::new(),
        server_port: "6697".to_string(),
        list_min_users: 5,
    }
}

fn plan(input: &str, current: Option<&str>) -> Plan {
    plan_command(input, &ctx(current), &NetworkSupport::default())
}

fn s(x: &str) -> String {
    x.to_string()
}

fn show(x: &str) -> Plan {
    CommandPlan::Show(vec![s(x)])
}

#[test]
fn hop_cycles_channel_while_halfop_remains_a_mode_command() {
    assert_eq!(plan("/hop", Some("#Room")), CommandPlan::Cycle(s("#Room")));
    assert_eq!(
        plan("/halfop alice", Some("#Room")),
        CommandPlan::SetModes { channel: s("#Room"), mode: s("+h"), nicks: vec![s("alice")] }
    );
}

#[test]
fn targetless_mode_queues_current_channel() {
    assert_eq!(
        plan("/mode +m", Some("#room")),
        CommandPlan::Send(Cmd::Mode(s("#room"), Some(s("+m")), Vec::new()))
    );
}

#[test]
fn history_command_uses_negotiated_server_limit_and_opens_public_channel() {
    let mut caps = CapState::new();
    let mut support = NetworkSupport::default();
    let desired = vec![s("draft/chathistory")];
    caps.handle_cap_message(&mut support, &desired, "LS", &[s("draft/chathistory=limit=50,retention=30d")]);
    caps.handle_cap_message(&mut support, &desired, "ACK", &[s("draft/chathistory")]);
    assert!(caps.chathistory_enabled);

    let p = plan_command("/history #public 500", &ctx(None), &support);
    assert_eq!(p, CommandPlan::History { target: s("#public"), limit: Some(500) });
    assert_eq!(history_page_limit(500, caps.chathistory_limit), 50);
}

#[test]
fn msg_with_doubled_space_still_reaches_target() {
    assert_eq!(plan("/msg  alice hi", None), CommandPlan::Message { target: s("alice"), text: s("hi") });
}

#[test]
fn kickban_with_hostmask_bans_mask_and_skips_kick() {
    assert_eq!(
        plan("/kb *!*@spam.example.com flooding", Some("#chan")),
        CommandPlan::Kickban { channel: s("#chan"), mask: s("*!*@spam.example.com"), kick: None }
    );
    assert_eq!(
        plan("/kb spammer flooding", Some("#chan")),
        CommandPlan::Kickban {
            channel: s("#chan"),
            mask: s("spammer!*@*"),
            kick: Some((s("spammer"), Some(s("flooding")))),
        }
    );
}

#[test]
fn monitor_attached_sign_is_parsed() {
    assert_eq!(
        plan("/monitor +friend", None),
        CommandPlan::Send(Cmd::Monitor(s("+"), Some(s("friend"))))
    );
}

#[test]
fn part_while_disconnected_closes_window_locally() {
    assert_eq!(plan("/part", Some("#stale")), CommandPlan::Part { channel: s("#stale"), reason: None });
}

#[test]
fn server_command_validates_before_mutation_and_never_inherits_a_profile() {
    match plan("/server new.example 0", None) {
        CommandPlan::ShowInServer(lines) => assert!(lines[0].contains("1 to 65535")),
        other => panic!("expected an error line, got {:?}", other),
    }
    assert_eq!(
        plan("/server irc.example.org 6697", None),
        CommandPlan::Server { host: s("irc.example.org"), port: Some(s("6697")) }
    );
}

#[test]
fn command_names_and_arguments_are_split_at_the_first_space() {
    assert_eq!(split_command_line("/join   #a key"), (s("JOIN"), s("#a key")));
    assert_eq!(split_command_line("/quit"), (s("QUIT"), String::new()));
    assert_eq!(command_kind("J"), CommandKind::Join);
    assert_eq!(command_kind("REJOIN"), CommandKind::Cycle);
    assert_eq!(command_kind("?"), CommandKind::Help);
    assert_eq!(command_kind("join"), CommandKind::Unknown);
}

#[test]
fn join_normalizes_channel_and_keeps_key() {
    assert_eq!(plan("/j rust secret", None), CommandPlan::Join { channel: s("#rust"), key: Some(s("secret")) });
    assert_eq!(plan("/JOIN #a", None), CommandPlan::Join { channel: s("#a"), key: None });
    assert_eq!(plan("/join", None), show("Usage: /join <#channel> [key]"));
}

#[test]
fn part_reads_channel_token_or_reason() {
    let mut c = ctx(Some("#here"));
    c.part_message = s("bye all");
    let support = NetworkSupport::default();
    assert_eq!(
        plan_command("/part #there see you", &c, &support),
        CommandPlan::Part { channel: s("#there"), reason: Some(s("see you")) }
    );
    assert_eq!(
        plan_command("/part #there", &c, &support),
        CommandPlan::Part { channel: s("#there"), reason: Some(s("bye all")) }
    );
    assert_eq!(
        plan_command("/leave gone now", &c, &support),
        CommandPlan::Part { channel: s("#here"), reason: Some(s("gone now")) }
    );
    assert_eq!(plan("/part", None), CommandPlan::Nothing);
}

#[test]
fn messaging_commands_need_a_target_and_text() {
    assert_eq!(plan("/msg alice", None), show("Usage: /msg <target> <message>"));
    assert_eq!(plan("/query bob hello", None), CommandPlan::Query { target: s("bob"), text: Some(s("hello")) });
    assert_eq!(plan("/q bob", None), CommandPlan::Query { target: s("bob"), text: None });
    assert_eq!(plan("/query", None), CommandPlan::ShowInServer(vec![s("Usage: /query <nick> [message]")]));
    assert_eq!(plan("/me waves", Some("#a")), CommandPlan::Action { target: s("#a"), text: s("waves") });
    assert_eq!(plan("/me", Some("#a")), show("Usage: /me <action>"));
    assert_eq!(
        plan("/slap", Some("#a")),
        CommandPlan::Action { target: s("#a"), text: s("slaps everyone around a bit with a large trout") }
    );
    assert_eq!(plan("/notice bob hi there", None), CommandPlan::Notice { target: s("bob"), text: s("hi there") });
    assert_eq!(plan("/onotice ops only", Some("#a")), CommandPlan::Notice { target: s("@#a"), text: s("ops only") });
    assert_eq!(plan("/describe #b dances", None), CommandPlan::Action { target: s("#b"), text: s("dances") });
    assert_eq!(plan("/say /not a command", Some("#a")), CommandPlan::Say { target: s("#a"), text: s("/not a command") });
    assert_eq!(plan("/amsg hi", None), CommandPlan::Broadcast { text: s("hi"), action: false });
    assert_eq!(plan("/ame waves", None), CommandPlan::Broadcast { text: s("waves"), action: true });
    assert_eq!(plan("/ns identify pw", None), CommandPlan::Service { service: s("NickServ"), text: s("identify pw") });
    assert_eq!(plan("/cs", None), show("Usage: /cs <command> [args]"));
}

#[test]
fn quit_and_away_reasons() {
    let mut c = ctx(None);
    let support = NetworkSupport::default();
    assert_eq!(plan_command("/quit", &c, &support), CommandPlan::Quit(s("Linefeed")));
    c.quit_message = s("see ya");
    assert_eq!(plan_command("/quit", &c, &support), CommandPlan::Quit(s("see ya")));
    assert_eq!(plan_command("/quit now", &c, &support), CommandPlan::Quit(s("now")));
    assert_eq!(plan("/away lunch", None), CommandPlan::Away(Some(s("lunch"))));
    assert_eq!(plan("/away", None), CommandPlan::Away(None));
    assert_eq!(plan("/back", None), CommandPlan::Away(None));
}

#[test]
fn history_arguments() {
    assert_eq!(plan("/history", Some("#a")), CommandPlan::History { target: s("#a"), limit: None });
    assert_eq!(plan("/history 20", Some("#a")), CommandPlan::History { target: s("#a"), limit: Some(20) });
    assert_eq!(plan("/history rust", None), CommandPlan::History { target: s("#rust"), limit: None });
    assert_eq!(plan("/history 0", Some("#a")), show("Usage: /history [#channel] [limit]"));
    assert_eq!(plan("/history #a x", None), show("Usage: /history [#channel] [limit]"));
    assert_eq!(plan("/history", Some("alice")), show("Usage: /history [#channel] [limit]"));
    assert_eq!(plan("/history #a 1 2", None), show("Usage: /history [#channel] [limit]"));
}

#[test]
fn ctcp_requests_are_framed() {
    assert_eq!(
        plan("/ctcp bob version", None),
        CommandPlan::Ctcp { target: s("bob"), command: s("VERSION"), payload: s("\x01VERSION\x01") }
    );
    assert_eq!(
        plan("/ctcp bob ping 123 456", None),
        CommandPlan::Ctcp { target: s("bob"), command: s("PING"), payload: s("\x01PING 123 456\x01") }
    );
    assert_eq!(plan("/ctcp bob", None), show("Usage: /ctcp <nick> <command> [args]"));
    assert_eq!(plan("/version bob", None), CommandPlan::CtcpVersion(s("bob")));
    assert_eq!(plan("/ping bob", None), CommandPlan::CtcpPing(s("bob")));
    assert_eq!(plan("/ping #chan", None), show("Usage: /ping <nick>"));
}

#[test]
fn channel_operator_commands() {
    assert_eq!(
        plan("/kick bob be nice", Some("#a")),
        CommandPlan::Send(Cmd::Kick(s("#a"), s("bob"), Some(s("be nice"))))
    );
    assert_eq!(plan("/kick bob", Some("alice")), CommandPlan::Nothing);
    assert_eq!(
        plan("/ban bob", Some("#a")),
        CommandPlan::Send(Cmd::Mode(s("#a"), Some(s("+b")), vec![s("bob!*@*")]))
    );
    assert_eq!(plan("/ban", Some("#a")), CommandPlan::Send(Cmd::Mode(s("#a"), Some(s("+b")), vec![])));
    assert_eq!(
        plan("/unban bob", Some("#a")),
        CommandPlan::Send(Cmd::Mode(s("#a"), Some(s("-b")), vec![s("bob!*@*")]))
    );
    assert_eq!(plan("/unban", Some("#a")), show("Usage: /unban <nick|mask>"));
    assert_eq!(
        plan("/op a  b", Some("#a")),
        CommandPlan::SetModes { channel: s("#a"), mode: s("+o"), nicks: vec![s("a"), s("b")] }
    );
    assert_eq!(plan("/deop", Some("#a")), show("Usage: /deop <nick> [nick2] ..."));
    assert_eq!(plan("/dehop", Some("#a")), CommandPlan::Nothing);
    assert_eq!(plan("/umode +i", None), CommandPlan::Send(Cmd::Mode(s("me"), Some(s("+i")), vec![])));
    assert_eq!(plan("/mode", Some("#a")), CommandPlan::Send(Cmd::Mode(s("#a"), None, vec![])));
    assert_eq!(plan("/mode +m", Some("bob")), show("Usage: /mode [target] [+/-modes] [params]"));
}

#[test]
fn server_and_list_commands() {
    assert_eq!(plan("/list", None), CommandPlan::ListChannels(Some(s(">4"))));
    assert_eq!(plan("/list *", None), CommandPlan::ListChannels(None));
    assert_eq!(plan("/list >100", None), CommandPlan::ListChannels(Some(s(">100"))));
    assert_eq!(plan("/silence bob", None), CommandPlan::Send(Cmd::Raw(s("SILENCE +bob"))));
    assert_eq!(plan("/silence -bob", None), CommandPlan::Send(Cmd::Raw(s("SILENCE -bob"))));
    assert_eq!(plan("/silence", None), CommandPlan::Send(Cmd::Raw(s("SILENCE"))));
    assert_eq!(plan("/accept", None), CommandPlan::Send(Cmd::Raw(s("ACCEPT *"))));
    assert_eq!(plan("/knock rust", None), CommandPlan::Knock(s("#rust")));
    assert_eq!(plan("/invite bob", Some("#a")), CommandPlan::Invite { nick: s("bob"), channel: s("#a") });
    assert_eq!(plan("/invite bob", None), show("Usage: /invite <nick> [#channel]"));
    assert_eq!(plan("/motd", None), CommandPlan::Send(Cmd::Motd(None)));
    assert_eq!(plan("/sversion irc.example", None), CommandPlan::Send(Cmd::Version(Some(s("irc.example")))));
    assert_eq!(plan("/stats", None), show("Usage: /stats <query> (c=servers, m=commands, o=opers, u=uptime)"));
    assert_eq!(plan("/server", None), CommandPlan::ShowServer);
    assert_eq!(plan("/server [::1]:7000", None), CommandPlan::Server { host: s("::1"), port: Some(s("7000")) });
    assert_eq!(
        plan("/server :6697", None),
        CommandPlan::ShowInServer(vec![s("Server host cannot be empty")])
    );
    assert_eq!(plan("/disconnect", None), CommandPlan::Disconnect(None));
    match plan("/monitor", None) {
        CommandPlan::Show(lines) => assert_eq!(lines.len(), 5),
        other => panic!("expected usage, got {:?}", other),
    }
}

#[test]
fn utility_commands() {
    assert_eq!(plan("/perform CLEAR", None), CommandPlan::ClearPerform);
    assert_eq!(plan("/perform /join #a", None), CommandPlan::AddPerform(s("/join #a")));
    assert_eq!(plan("/perform", None), CommandPlan::ShowPerform);
    assert_eq!(plan("/ignore", None), CommandPlan::ShowIgnores);
    assert_eq!(plan("/ignore spam*", None), CommandPlan::Ignore(s("spam*")));
    assert_eq!(plan("/unignore", None), show("Usage: /unignore <nick|mask>"));
    assert_eq!(plan("/grep needle", None), CommandPlan::Lastlog(s("needle")));
    assert_eq!(plan("/echo hello", None), show("hello"));
    assert_eq!(plan("/echo", None), CommandPlan::Nothing);
    assert_eq!(plan("/wc", None), CommandPlan::Close);
    assert_eq!(plan("/frobnicate now", None), show("Unknown command: FROBNICATE. Type /help for list."));
    assert_eq!(plan("/nick  new  extra", None), CommandPlan::Send(Cmd::Nick(s("new"))));
    assert_eq!(plan("/nick", None), show("Usage: /nick <newnick>"));
}

#[test]
fn ignore_list_deduplicates_by_case_mapped_key() {
    let support = NetworkSupport::default();
    let mut list = Vec::new();
    let mut keys = Vec::new();
    assert!(add_ignore(&mut list, &mut keys, "Spammer", &support));
    assert!(!add_ignore(&mut list, &mut keys, "SPAMMER", &support));
    assert!(add_ignore(&mut list, &mut keys, "bot*!*@*", &support));
    assert_eq!(list, vec![s("Spammer"), s("bot*!*@*")]);
    assert_eq!(keys, vec![s("spammer"), s("bot*!*@*")]);

    assert!(remove_ignore(&mut list, &mut keys, "spammer", &support));
    assert_eq!(list, vec![s("bot*!*@*")]);
    assert_eq!(keys, vec![s("bot*!*@*")]);
    assert!(!remove_ignore(&mut list, &mut keys, "nobody", &support));
    assert_eq!(list.len(), 1);
}

#[test]
fn perform_listing_numbers_lines_and_hides_credentials() {
    let mut auto = String::new();
    add_perform(&mut auto, "/join #rust");
    add_perform(&mut auto, "/ns identify hunter2");
    assert_eq!(auto, "/join #rust\n/ns identify hunter2");
    assert_eq!(
        perform_listing(&auto),
        vec![s("  1. /join #rust"), s("  2. <credential command redacted>")]
    );
    assert_eq!(perform_listing("  \n/mode +i\r\n\n"), vec![s("  1. /mode +i")]);
    assert!(perform_listing("").is_empty());
    assert_eq!(text_lines_exec("a\r\nb\n\nc\r"), vec![s("a"), s("b"), s(""), s("c\r")]);
}

#[test]
fn lastlog_searches_newest_first_and_skips_display_only_lines() {
    let mut msgs = VecDeque::new();
    let mut old = ChatMessage::new_fmt("Alice", "first Needle", "%H:%M", 0);
    old.timestamp = s("10:00");
    msgs.push_back(old);
    let mut other = ChatMessage::new_fmt("bob", "nothing here", "%H:%M", 0);
    other.timestamp = s("10:01");
    msgs.push_back(other);
    let mut banner = ChatMessage::new_fmt("*", "Searching for: needle", "%H:%M", 0);
    banner.no_log = true;
    msgs.push_back(banner);
    let mut new = ChatMessage::new_fmt("needleman", "hi", "%H:%M", 0);
    new.timestamp = s("10:02");
    msgs.push_back(new);
    assert_eq!(
        lastlog(&msgs, "NEEDLE"),
        vec![s("[10:02] <needleman> hi"), s("[10:00] <Alice> first Needle")]
    );
    assert!(lastlog(&msgs, "absent").is_empty());

    let mut many = VecDeque::new();
    for i in 0..600 {
        many.push_back(ChatMessage::new_fmt("x", &format!("match {}", i), "%H:%M", 0));
    }
    let found = lastlog(&many, "match");
    assert_eq!(found.len(), 50);
    assert!(found[0].ends_with("match 599"));
}

#[test]
fn registration_automation_reads_join_list_and_perform_lines() {
    let support = NetworkSupport::default();
    assert_eq!(
        auto_join_targets(" #a, rust ,,&local,", &support),
        vec![s("#a"), s("#rust"), s("&local")]
    );
    assert!(auto_join_targets("", &support).is_empty());
    assert_eq!(
        auto_perform_commands("ns identify x\r\n\n  \n/mode me +i\n"),
        vec![s("ns identify x"), s("/mode me +i")]
    );
    assert_eq!(perform_command_line("ns identify x"), "/ns identify x");
    assert_eq!(perform_command_line("/join #a"), "/join #a");
}

#[test]
fn help_lists_every_section_and_command() {
    let lines = linefeed::slash::help_lines();
    assert_eq!(lines.len(), 78);
    assert_eq!(lines[0], "=== Basic Commands ===");
    assert_eq!(lines[1], "/join #channel      - Join a channel (alias: /j)");
    assert_eq!(lines.iter().filter(|l| l.starts_with("===")).count(), 11);
}

use linefeed::commands::{
    command_line_contains_credentials, is_auth_service_target, mode_command_args, monitor_args,
    outgoing_local_echo, parse_server_arg, parse_server_port, service_message_contains_credentials,
};

#[test]
fn monitor_args_accepts_attached_sign() {
    assert_eq!(monitor_args("+ friend"), ("+".into(), Some("friend".into())));
    assert_eq!(monitor_args("+friend"), ("+".into(), Some("friend".into())));
    assert_eq!(monitor_args("-friend"), ("-".into(), Some("friend".into())));
    assert_eq!(monitor_args("+a,b c"), ("+".into(), Some("a,b,c".into())));
    assert_eq!(monitor_args("L"), ("L".into(), None));
    assert_eq!(monitor_args("friend"), ("+".into(), Some("friend".into())));
}

#[test]
fn monitor_subcommands_are_case_insensitive() {
    assert_eq!(monitor_args("c"), ("C".into(), None));
    assert_eq!(monitor_args("s extra"), ("S".into(), Some("extra".into())));
}

#[test]
fn mode_args_support_current_channel_shorthand() {
    assert_eq!(
        mode_command_args("+m", Some("#room")),
        Some(("#room".into(), Some("+m".into()), Vec::new()))
    );
    assert_eq!(
        mode_command_args("+kl secret 20", Some("#room")),
        Some(("#room".into(), Some("+kl".into()), vec!["secret".into(), "20".into()]))
    );
    assert_eq!(
        mode_command_args("#other +m", Some("#room")),
        Some(("#other".into(), Some("+m".into()), Vec::new()))
    );
    assert_eq!(mode_command_args("#other", Some("#room")), Some(("#other".into(), None, Vec::new())));
    assert_eq!(mode_command_args("+m", None), None);
}

#[test]
fn mode_args_empty_is_none() {
    assert_eq!(mode_command_args("   ", Some("#room")), None);
}

#[test]
fn server_arg_handles_ipv6() {
    assert_eq!(parse_server_arg("irc.libera.chat:6697"), Ok(("irc.libera.chat".into(), Some("6697".into()))));
    assert_eq!(parse_server_arg("irc.libera.chat 6697"), Ok(("irc.libera.chat".into(), Some("6697".into()))));
    assert_eq!(parse_server_arg("2001:db8::1 6697"), Ok(("2001:db8::1".into(), Some("6697".into()))));
    assert_eq!(parse_server_arg("2001:db8::1"), Ok(("2001:db8::1".into(), None)));
    assert_eq!(parse_server_arg("[::1]:7000"), Ok(("::1".into(), Some("7000".into()))));
    assert_eq!(parse_server_arg("[2001:db8::1]"), Ok(("2001:db8::1".into(), None)));
    assert_eq!(parse_server_arg("irc.example.org"), Ok(("irc.example.org".into(), None)));
    assert!(parse_server_arg("host:junk").is_err());
    assert!(parse_server_arg("host:").is_err());
    assert!(parse_server_arg(":6697").is_err());
    assert!(parse_server_arg("host 0").is_err());
    assert!(parse_server_arg("host 70000").is_err());
    assert!(parse_server_arg("host abc").is_err());
    assert_eq!(parse_server_port("1"), Ok(1));
    assert_eq!(parse_server_port("65535"), Ok(65535));
}

#[test]
fn server_arg_error_messages() {
    assert_eq!(parse_server_arg(":6697"), Err("Server host cannot be empty".to_string()));
    assert_eq!(parse_server_arg("[::1]x"), Err("Invalid server endpoint: [::1]x".to_string()));
    assert_eq!(
        parse_server_port(" 0 "),
        Err("Invalid server port \"0\"; enter a number from 1 to 65535".to_string())
    );
    assert_eq!(parse_server_arg("[ab:cd"), Ok(("ab:cd".into(), None)));
    assert_eq!(parse_server_arg("[h] 12"), Ok(("h".into(), Some("12".into()))));
    assert_eq!(parse_server_port("+7"), Ok(7));
    assert!(parse_server_port("").is_err());
}

#[test]
fn service_targets_are_recognized() {
    assert!(is_auth_service_target("NickServ"));
    assert!(is_auth_service_target("@ns"));
    assert!(is_auth_service_target("ChanServ@services.example"));
    assert!(!is_auth_service_target("alice"));
    assert!(!is_auth_service_target("nickservx"));
}

#[test]
fn service_messages_with_passwords_are_sensitive() {
    assert!(service_message_contains_credentials("NickServ", "IDENTIFY secret"));
    assert!(service_message_contains_credentials("alice,NickServ", ":identify secret"));
    assert!(service_message_contains_credentials("ChanServ", "set password x"));
    assert!(service_message_contains_credentials("NS", "SET PASS x"));
    assert!(!service_message_contains_credentials("NickServ", "INFO alice"));
    assert!(!service_message_contains_credentials("NickServ", "SET EMAIL x"));
    assert!(!service_message_contains_credentials("alice", "IDENTIFY secret"));
    assert!(!service_message_contains_credentials("NickServ", ""));
}

#[test]
fn command_lines_with_credentials_are_detected() {
    assert!(command_line_contains_credentials("/pass hunter2"));
    assert!(command_line_contains_credentials("  /OPER admin pw"));
    assert!(command_line_contains_credentials("/ns identify pw"));
    assert!(command_line_contains_credentials("/msg NickServ IDENTIFY pw"));
    assert!(command_line_contains_credentials("/quote PRIVMSG NickServ :IDENTIFY pw"));
    assert!(command_line_contains_credentials("/raw /pass x"));
    assert!(command_line_contains_credentials("/perform /ns identify pw"));
    assert!(!command_line_contains_credentials("/perform clear"));
    assert!(!command_line_contains_credentials("/msg alice hello"));
    assert!(!command_line_contains_credentials("hello there"));
    assert!(!command_line_contains_credentials(""));
}

#[test]
fn credential_echo_is_masked_and_unlogged() {
    let m = outgoing_local_echo("NickServ", "me", "IDENTIFY secret", "short", 0);
    assert_eq!(m.content, "<credential command sent>");
    assert!(m.no_log);
    assert_eq!(m.sender, "me");
    let m = outgoing_local_echo("#chan", "me", "hello", "short", 0);
    assert_eq!(m.content, "hello");
    assert!(!m.no_log);
}

#[test]
fn credential_commands_are_redacted_from_local_echoes_and_perform_output() {
    for message in [
        "IDENTIFY hunter2",
        "REGISTER hunter2 user@example.test",
        "SIDENTIFY hunter2",
        "GHOST oldnick hunter2",
        "REGAIN nick hunter2",
        "RECOVER nick hunter2",
        "RELEASE nick hunter2",
        "SET PASSWORD hunter2",
    ] {
        assert!(service_message_contains_credentials("NickServ", message));
        let echo = outgoing_local_echo("NickServ", "me", message, "short", 0);
        assert!(echo.no_log);
        assert_eq!(echo.content, "<credential command sent>");
        assert!(!echo.content.contains("hunter2"));
    }

    for line in [
        "/ns identify hunter2",
        "/msg NickServ identify hunter2",
        "/query NickServ recover nick hunter2",
        "/notice NickServ identify hunter2",
        "/msg NickServ@services.example identify hunter2",
        "/msg NickServ,alice identify hunter2",
        "/msg NS identify hunter2",
        "/query NS id hunter2",
        "/notice NS identify hunter2",
        "/msg CS identify #chan key123",
        "/msg ChanServ identify #chan key123",
        "/cs identify #chan key123",
        "/as login account hunter2",
        "/perform /ns identify hunter2",
        "/raw PASS hunter2",
        "/quote AUTHENTICATE hunter2",
    ] {
        assert!(command_line_contains_credentials(line), "{line}");
    }

    let ordinary = outgoing_local_echo("NickServ", "me", "INFO alice", "short", 0);
    assert!(!ordinary.no_log);
    assert_eq!(ordinary.content, "INFO alice");
    assert!(!command_line_contains_credentials("/join #rust"));

    assert!(!service_message_contains_credentials("NS", "hello there"));
    assert!(service_message_contains_credentials("CS", "IDENTIFY #chan key123"));
}

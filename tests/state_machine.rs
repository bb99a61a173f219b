use tmp_mail::smtp::state_machine::{Malformed, ProtocolError, Response, State, StateMachine};

#[test]
fn test_regular_flow() {
    let mut sm = StateMachine::new("dummy");
    assert_eq!(sm.state, State::Fresh);

    sm.handle_smtp("HELO localhost").unwrap();
    assert_eq!(sm.state, State::Greeted);

    sm.handle_smtp("MAIL FROM: <local@example.com>").unwrap();
    assert!(matches!(sm.state, State::ReceivingRcpt(_)));

    sm.handle_smtp("RCPT TO: <a@localhost.com>").unwrap();
    assert!(matches!(sm.state, State::ReceivingRcpt(_)));

    sm.handle_smtp("RCPT TO: <b@localhost.com>").unwrap();
    assert!(matches!(sm.state, State::ReceivingRcpt(_)));

    sm.handle_smtp("DATA hello world\n").unwrap();
    assert!(matches!(sm.state, State::ReceivingData(_)));

    sm.handle_smtp("DATA hello world2\n").unwrap();
    assert!(matches!(sm.state, State::ReceivingData(_)));

    sm.handle_smtp("QUIT").unwrap();
    assert!(matches!(sm.state, State::Received(_)));
}

#[test]
fn test_no_greeting() {
    let mut sm = StateMachine::new("dummy");
    assert_eq!(sm.state, State::Fresh);

    for command in [
        "MAIL FROM: <local@example.com>",
        "RCPT TO: <local@example.com",
        "DATA hey",
        "GARBAGE",
    ] {
        assert!(sm.handle_smtp(command).is_err());
    }
}

fn text(s: &str) -> Response {
    Response::Immediate(s.to_string())
}

fn in_rcpt() -> StateMachine {
    let mut sm = StateMachine::new("dummy");
    sm.handle_smtp("HELO x\n").unwrap();
    sm.handle_smtp("MAIL FROM:<a@b.com>\n").unwrap();
    sm
}

#[test]
fn regular_flow_keeps_sender_recipients_and_data() {
    let mut sm = StateMachine::new("dummy");
    sm.handle_smtp("HELO localhost").unwrap();
    sm.handle_smtp("MAIL FROM: <local@example.com>").unwrap();
    sm.handle_smtp("RCPT TO: <a@localhost.com>").unwrap();
    sm.handle_smtp("RCPT TO:<b@localhost.com>").unwrap();
    sm.handle_smtp("DATA hello world\n").unwrap();
    sm.handle_smtp("first\n").unwrap();
    sm.handle_smtp("second\r\n.\r\n").unwrap();
    sm.handle_smtp("QUIT").unwrap();
    match sm.state {
        State::Received(mail) => {
            assert_eq!(mail.from, "<local@example.com>");
            assert_eq!(mail.to, vec!["<a@localhost.com>".to_string(), "<b@localhost.com>".to_string()]);
            assert_eq!(mail.data, "first\nsecond\r\n.\r\n");
        }
        other => panic!("unexpected state {:?}", other),
    }
}

#[test]
fn ehlo_names_domain_and_auth() {
    let mut sm = StateMachine::new("example.org");
    let r = sm.handle_smtp("EHLO client\r\n").unwrap();
    assert_eq!(r, text("250-example.org Hello example.org\n250 AUTH PLAIN LOGIN\n"));
    assert_eq!(sm.state, State::Greeted);
}

#[test]
fn commands_are_case_insensitive() {
    let mut sm = StateMachine::new("dummy");
    assert_eq!(sm.handle_smtp("HeLo x").unwrap(), text("250 Ok\n"));
    assert_eq!(sm.state, State::Greeted);
}

#[test]
fn fresh_rejects_other_commands() {
    for line in ["MAIL FROM:<a@b.com>\n", "RCPT TO:<c@d.com>\n", "DATA\n", "hello\n"] {
        let mut sm = StateMachine::new("dummy");
        match sm.handle_smtp(line) {
            Err(ProtocolError::UnexpectedCommand { state, line: l }) => {
                assert_eq!(state, State::Fresh);
                assert_eq!(l, line);
            }
            other => panic!("unexpected result {:?}", other),
        }
        assert_eq!(sm.state, State::Fresh);
    }
}

#[test]
fn fresh_accepts_rset_auth_and_quit() {
    let mut sm = StateMachine::new("dummy");
    assert_eq!(sm.handle_smtp("RSET\n").unwrap(), text("250 Ok\n"));
    assert_eq!(sm.handle_smtp("AUTH PLAIN abc\n").unwrap(), text("235 Ok\n"));
    assert_eq!(sm.handle_smtp("QUIT\n").unwrap(), text("221 Bye\n"));
    assert_eq!(sm.state, State::Fresh);
}

#[test]
fn inert_commands_change_nothing() {
    for cmd in ["NOOP\n", "HELP\n", "INFO\n", "VRFY x\n", "EXPN y\n"] {
        let mut sm = in_rcpt();
        let before = sm.state.clone();
        let first = sm.handle_smtp(cmd).unwrap();
        assert_eq!(sm.state, before);
        let second = sm.handle_smtp(cmd).unwrap();
        assert_eq!(first, text("250 Ok\n"));
        assert_eq!(first, second);
        assert_eq!(sm.state, before);
    }
}

#[test]
fn rset_returns_to_fresh() {
    let mut sm = in_rcpt();
    sm.handle_smtp("DATA\n").unwrap();
    sm.handle_smtp("some body\n").unwrap();
    assert_eq!(sm.handle_smtp("RSET\n").unwrap(), text("250 Ok\n"));
    assert_eq!(sm.state, State::Fresh);
}

#[test]
fn blank_input_is_empty_command() {
    let mut sm = in_rcpt();
    let before = sm.state.clone();
    assert_eq!(sm.handle_smtp(" \t\r\n"), Err(ProtocolError::EmptyCommand));
    assert_eq!(sm.handle_smtp(""), Err(ProtocolError::EmptyCommand));
    assert_eq!(sm.state, before);
}

#[test]
fn malformed_mail_lines() {
    let cases = [
        ("MAIL\n", Malformed::MissingArgument),
        ("MAIL TO:<a@b.com>\n", Malformed::MissingPrefix),
        ("MAIL FROM:\n", Malformed::MissingAddress),
    ];
    for (line, reason) in cases {
        let mut sm = StateMachine::new("dummy");
        sm.handle_smtp("HELO x\n").unwrap();
        assert_eq!(sm.handle_smtp(line), Err(ProtocolError::Malformed(reason)));
        assert_eq!(sm.state, State::Fresh);
    }
}

#[test]
fn malformed_rcpt_lines() {
    let cases = [
        ("RCPT\n", Malformed::MissingArgument),
        ("RCPT FROM:<a@b.com>\n", Malformed::MissingPrefix),
        ("RCPT TO:   \n", Malformed::MissingAddress),
    ];
    for (line, reason) in cases {
        let mut sm = in_rcpt();
        assert_eq!(sm.handle_smtp(line), Err(ProtocolError::Malformed(reason)));
    }
}

#[test]
fn data_without_terminator_is_deferred() {
    let mut sm = in_rcpt();
    assert_eq!(
        sm.handle_smtp("DATA\n").unwrap(),
        text("354 End data with <CR><LF>.<CR><LF>\n")
    );
    assert_eq!(sm.handle_smtp("hello\r\n").unwrap(), Response::Deferred);
    assert_eq!(sm.handle_smtp(".\r\n").unwrap(), Response::Deferred);
    assert_eq!(sm.handle_smtp("end\r\n.\r\n").unwrap(), text("250 Ok\n"));
    match &sm.state {
        State::ReceivingData(mail) => assert_eq!(mail.data, "hello\r\n.\r\nend\r\n.\r\n"),
        other => panic!("unexpected state {:?}", other),
    }
}

#[test]
fn quit_outside_data_keeps_state() {
    let mut sm = in_rcpt();
    let before = sm.state.clone();
    assert_eq!(sm.handle_smtp("QUIT\n").unwrap(), text("221 Bye\n"));
    assert_eq!(sm.state, before);
}

#[test]
fn zero_recipients_are_accepted() {
    let mut sm = in_rcpt();
    sm.handle_smtp("DATA\n").unwrap();
    sm.handle_smtp("QUIT\n").unwrap();
    match sm.state {
        State::Received(mail) => assert!(mail.to.is_empty()),
        other => panic!("unexpected state {:?}", other),
    }
}

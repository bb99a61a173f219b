use tmp_mail::database::{cutoff_millis, cutoff_text_at, join_recipients, record_at, RETENTION_MS};
use tmp_mail::smtp::session::{Action, Session};
use tmp_mail::smtp::state_machine::{ProtocolError, State, START};
use tmp_mail::Mail;

fn send(s: &str) -> Action {
    Action::Send(s.to_string())
}

#[test]
fn scenario_complete_session_is_stored() {
    let mut session = Session::new("dummy");
    assert_eq!(START, "220 tmp-mail\n");
    let inputs = [
        "HELO x\n",
        "MAIL FROM: <a@b.com>\n",
        "RCPT TO: <c@d.com>\n",
        "DATA\n",
        "hello\r\n.\r\n",
        "QUIT\n",
    ];
    let expected = [
        send("250 Ok\n"),
        send("250 Ok\n"),
        send("250 Ok\n"),
        send("354 End data with <CR><LF>.<CR><LF>\n"),
        send("250 Ok\n"),
        Action::SendAndClose("221 Bye\n".to_string()),
    ];
    for (input, want) in inputs.iter().zip(expected.iter()) {
        assert_eq!(&session.on_bytes(input.as_bytes()).unwrap(), want);
    }
    let mail = session.into_mail().unwrap();
    let record = record_at(mail, 947638923004).unwrap();
    assert_eq!(record.sender, "<a@b.com>");
    assert_eq!(record.recipients, "<c@d.com>");
    assert!(record.data.contains("hello\r\n.\r\n"));
}

#[test]
fn scenario_close_during_data_stores_mail() {
    let mut explicit = Session::new("dummy");
    let mut closed = Session::new("dummy");
    for input in ["HELO x\n", "MAIL FROM:<a@b.com>\n", "RCPT TO:<c@d.com>\n", "DATA\n", "partial body\n"] {
        explicit.on_bytes(input.as_bytes()).unwrap();
        closed.on_bytes(input.as_bytes()).unwrap();
    }
    explicit.on_bytes(b"QUIT\n").unwrap();
    closed.on_close();
    assert_eq!(closed.machine.state, explicit.machine.state);
    let mail = closed.into_mail().unwrap();
    assert_eq!(mail.from, "<a@b.com>");
    assert_eq!(mail.to, vec!["<c@d.com>".to_string()]);
    assert_eq!(mail.data, "partial body\n");
}

#[test]
fn scenario_garbage_first_is_rejected() {
    let mut session = Session::new("dummy");
    match session.on_bytes(b"GARBAGE\n") {
        Err(ProtocolError::UnexpectedCommand { state, line }) => {
            assert_eq!(state, State::Fresh);
            assert_eq!(line, "GARBAGE\n");
        }
        other => panic!("unexpected result {:?}", other),
    }
    assert!(session.into_mail().is_none());
}

#[test]
fn invalid_utf8_is_encoding_error() {
    let mut session = Session::new("dummy");
    assert_eq!(session.on_bytes(&[0x48, 0xff, 0x0a]), Err(ProtocolError::Encoding));
    assert_eq!(session.machine.state, State::Fresh);
}

#[test]
fn deferred_chunk_waits() {
    let mut session = Session::new("dummy");
    for input in ["HELO x\n", "MAIL FROM:<a@b.com>\n", "DATA\n"] {
        session.on_bytes(input.as_bytes()).unwrap();
    }
    assert_eq!(session.on_bytes(b"no end yet\n").unwrap(), Action::Wait);
}

#[test]
fn close_before_data_stores_nothing() {
    let mut session = Session::new("dummy");
    session.on_bytes(b"HELO x\n").unwrap();
    session.on_bytes(b"MAIL FROM:<a@b.com>\n").unwrap();
    session.on_close();
    assert!(session.into_mail().is_none());
}

#[test]
fn recipients_are_joined_in_order() {
    let to = vec!["<a@x>".to_string(), "<b@y>".to_string(), "<c@z>".to_string()];
    assert_eq!(join_recipients(&to), "<a@x>, <b@y>, <c@z>");
    assert_eq!(join_recipients(&Vec::new()), "");
}

#[test]
fn record_date_is_utc_text_with_millis() {
    let mail = Mail { from: "<a@b.com>".to_string(), to: vec![], data: "x".to_string() };
    let record = record_at(mail, 947638923004).unwrap();
    assert_eq!(record.date, "2000-01-12 01:02:03.004");
    assert_eq!(record.recipients, "");
}

#[test]
fn cutoff_is_now_minus_retention() {
    assert_eq!(RETENTION_MS, 604_800_000);
    assert_eq!(cutoff_millis(1000, 400), Some(600));
    assert_eq!(cutoff_millis(i64::MIN, 1), None);
    assert_eq!(
        cutoff_text_at(947638923004 + RETENTION_MS, RETENTION_MS).unwrap(),
        "2000-01-12 01:02:03.004"
    );
    assert_eq!(cutoff_text_at(i64::MIN, 1), None);
}

#[test]
fn prune_window_orders_dates() {
    let now: i64 = 1_700_000_000_000;
    let cutoff = cutoff_text_at(now, RETENTION_MS).unwrap();
    let mail = || Mail { from: "a".to_string(), to: vec![], data: String::new() };
    let old = record_at(mail(), now - RETENTION_MS - 1).unwrap();
    let fresh = record_at(mail(), now).unwrap();
    let edge = record_at(mail(), now - RETENTION_MS).unwrap();
    assert!(old.date < cutoff);
    assert!(!(fresh.date < cutoff));
    assert!(!(edge.date < cutoff));
}

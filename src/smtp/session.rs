//! The decisions of one connection: what to write after each read, when to
//! stop, and which mail the finished connection leaves to store. The caller
//! performs the reads and writes.
use vstd::prelude::*;
use vstd::utf8::{decode_utf8, valid_utf8};

use super::state_machine::{
    classify, handle, step, Command, ErrorView, Outcome, ProtocolError, Response, StateMachine,
    StateView, END,
};
use crate::{Mail, MailView};

verus! {

/// What the connection does after one chunk of input.
#[derive(Debug, Clone, PartialEq, Eq)]
pub enum Action {
    /// Write this text and read on.
    Send(String),
    /// Write this text, then stop reading.
    SendAndClose(String),
    /// Write nothing and read on.
    Wait,
}

/// The mathematical content of an [`Action`].
pub enum ActionView {
    Send(Seq<char>),
    SendAndClose(Seq<char>),
    Wait,
}

impl View for Action {
    type V = ActionView;

    open spec fn view(&self) -> ActionView {
        match self {
            Action::Send(t) => ActionView::Send(t@),
            Action::SendAndClose(t) => ActionView::SendAndClose(t@),
            Action::Wait => ActionView::Wait,
        }
    }
}

/// The action for the outcome of one step: a deferral writes nothing, the
/// closing reply ends the connection, a failure ends it without a write.
pub open spec fn decide(out: Outcome) -> Result<ActionView, ErrorView> {
    match out {
        Ok(Some(t)) => if t == END@ {
            Ok(ActionView::SendAndClose(t))
        } else {
            Ok(ActionView::Send(t))
        },
        Ok(None) => Ok(ActionView::Wait),
        Err(e) => Err(e),
    }
}

/// The mathematical content of the result of [`Session::on_bytes`].
pub open spec fn action_result(r: &Result<Action, ProtocolError>) -> Result<ActionView, ErrorView> {
    match r {
        Ok(a) => Ok(a@),
        Err(e) => Err(e@),
    }
}

/// The mail that a connection that ended in state `s` leaves to store.
pub open spec fn finished_mail(s: StateView) -> Option<MailView> {
    match s {
        StateView::ReceivingData(m) => Some(m),
        StateView::Received(m) => Some(m),
        _ => None,
    }
}

/// Relies on `std::str::from_utf8`: it succeeds exactly on valid UTF-8, and
/// the text then holds the characters that the bytes encode.
#[verifier::external_body]
fn decode<'a>(bytes: &'a [u8]) -> (r: Option<&'a str>)
    ensures
        r is Some <==> valid_utf8(bytes@),
        r matches Some(s) ==> s@ == decode_utf8(bytes@),
{
    std::str::from_utf8(bytes).ok()
}

/// One connection's protocol state.
pub struct Session {
    pub machine: StateMachine,
}

impl Session {
    /// A session whose `EHLO` reply names `domain`.
    pub fn new(domain: &str) -> (r: Session)
        ensures
            r.machine.state@ == StateView::Fresh,
            r.machine.greeting() == super::state_machine::ehlo_text(domain@),
    {
        Session { machine: StateMachine::new(domain) }
    }

    /// What to do with one non-empty read: bytes that are not UTF-8 fail with
    /// `Encoding` and change nothing; text goes whole to the state machine.
    pub fn on_bytes(&mut self, bytes: &[u8]) -> (r: Result<Action, ProtocolError>)
        ensures
            !valid_utf8(bytes@) ==> action_result(&r) == Err::<ActionView, ErrorView>(
                ErrorView::Encoding,
            ) && final(self).machine.state@ == old(self).machine.state@,
            valid_utf8(bytes@) ==> {
                let (next, out) = handle(
                    old(self).machine.state@,
                    decode_utf8(bytes@),
                    old(self).machine.greeting(),
                );
                final(self).machine.state@ == next && action_result(&r) == decide(out)
            },
            final(self).machine.greeting() == old(self).machine.greeting(),
    {
        match decode(bytes) {
            None => Err(ProtocolError::Encoding),
            Some(text) => match self.machine.handle_smtp(text) {
                Err(e) => Err(e),
                Ok(Response::Deferred) => Ok(Action::Wait),
                Ok(Response::Immediate(t)) => {
                    if super::state_machine::same_text(t.as_str(), END) {
                        Ok(Action::SendAndClose(t))
                    } else {
                        Ok(Action::Send(t))
                    }
                },
            },
        }
    }

    /// The peer closed the connection: an implicit `QUIT`, whose reply is
    /// not sent.
    pub fn on_close(&mut self)
        ensures
            final(self).machine.state@ == step(
                old(self).machine.state@,
                Command::Quit,
                "quit"@,
                old(self).machine.greeting(),
            ).0,
            final(self).machine.greeting() == old(self).machine.greeting(),
    {
        proof {
            lemma_quit_word();
        }
        let _ = self.machine.handle_command("quit", "quit");
    }

    /// The mail to store once the connection is over: the one in progress
    /// in `ReceivingData`, or the received one; none in any other state.
    pub fn into_mail(self) -> (r: Option<Mail>)
        ensures
            match finished_mail(self.machine.state@) {
                Some(m) => r matches Some(mail) && mail@ == m,
                None => r is None,
            },
    {
        match self.machine.state {
            super::state_machine::State::ReceivingData(mail) => Some(mail),
            super::state_machine::State::Received(mail) => Some(mail),
            _ => None,
        }
    }
}

/// The word `quit` names `QUIT`.
proof fn lemma_quit_word()
    ensures
        classify("quit"@) == Command::Quit,
{
    reveal_strlit("quit");
    reveal_strlit("ehlo");
    assert("quit"@[0] != "ehlo"@[0]);
    reveal_strlit("helo");
    assert("quit"@[0] != "helo"@[0]);
    reveal_strlit("noop");
    assert("quit"@[0] != "noop"@[0]);
    reveal_strlit("help");
    assert("quit"@[0] != "help"@[0]);
    reveal_strlit("info");
    assert("quit"@[0] != "info"@[0]);
    reveal_strlit("vrfy");
    assert("quit"@[0] != "vrfy"@[0]);
    reveal_strlit("expn");
    assert("quit"@[0] != "expn"@[0]);
    reveal_strlit("rset");
    assert("quit"@[0] != "rset"@[0]);
    reveal_strlit("auth");
    assert("quit"@[0] != "auth"@[0]);
    reveal_strlit("mail");
    assert("quit"@[0] != "mail"@[0]);
    reveal_strlit("rcpt");
    assert("quit"@[0] != "rcpt"@[0]);
    reveal_strlit("data");
    assert("quit"@[0] != "data"@[0]);
}

/// A close in `ReceivingData` stores the mail in progress, unchanged.
pub proof fn lemma_close_keeps_mail(m: MailView, greeting: Seq<char>)
    ensures
        finished_mail(
            step(StateView::ReceivingData(m), Command::Quit, "quit"@, greeting).0,
        ) == Some(m),
{
}

/// The implicit `QUIT` of a close leaves the state that any explicit `QUIT`
/// line leaves, from every state.
pub proof fn lemma_close_as_quit(s: StateView, line: Seq<char>, greeting: Seq<char>)
    requires
        super::state_machine::command_of(line) == Some(Command::Quit),
    ensures
        step(s, Command::Quit, "quit"@, greeting).0 == handle(s, line, greeting).0,
{
}

} // verus!

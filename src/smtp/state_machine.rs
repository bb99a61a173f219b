//! The per-connection protocol state machine: it consumes one chunk of input
//! at a time and answers with a reply, a deferral or a failure.
use vstd::prelude::*;

use crate::{strings_view, Mail, MailView};

verus! {

/// ASCII whitespace as `char::is_ascii_whitespace` defines it.
pub open spec fn is_space(c: char) -> bool {
    c == ' ' || c == '\t' || c == '\n' || c == '\u{0C}' || c == '\r'
}

/// The first index at or after `i` whose character is not whitespace.
pub open spec fn skip_space(s: Seq<char>, i: int) -> int
    decreases s.len() - i,
{
    if 0 <= i < s.len() && is_space(s[i]) {
        skip_space(s, i + 1)
    } else {
        i
    }
}

/// The first index at or after `i` whose character is whitespace, or the end.
pub open spec fn skip_word(s: Seq<char>, i: int) -> int
    decreases s.len() - i,
{
    if 0 <= i < s.len() && !is_space(s[i]) {
        skip_word(s, i + 1)
    } else {
        i
    }
}

/// Start and end of the `n`-th whitespace-delimited word of `s` (counting
/// from zero); the start is `s.len()` where there is no such word.
pub open spec fn word_bounds(s: Seq<char>, n: nat) -> (int, int)
    decreases n,
{
    let from = if n == 0 {
        0
    } else {
        word_bounds(s, (n - 1) as nat).1
    };
    let start = skip_space(s, from);
    (start, skip_word(s, start))
}

/// The `n`-th whitespace-delimited word of `s`, if there is one.
pub open spec fn word(s: Seq<char>, n: nat) -> Option<Seq<char>> {
    let (start, end) = word_bounds(s, n);
    if start < s.len() {
        Some(s.subrange(start, end))
    } else {
        None
    }
}

/// The characters of `raw`, in order.
fn chars_of(raw: &str) -> (v: Vec<char>)
    ensures
        v@ == raw@,
{
    let mut v: Vec<char> = Vec::new();
    for c in it: raw.chars()
        invariant
            it.seq() == raw@,
            v@ == it.seq().subrange(0, it.index() as int),
    {
        v.push(c);
    }
    v
}

/// Index of the first non-whitespace character at or after `i`.
fn scan_space(s: &Vec<char>, i: usize) -> (r: usize)
    requires
        i <= s.len(),
    ensures
        r == skip_space(s@, i as int),
        i <= r <= s.len(),
{
    let mut j = i;
    while j < s.len() && is_ascii_space(s[j])
        invariant
            i <= j <= s.len(),
            skip_space(s@, j as int) == skip_space(s@, i as int),
        decreases s.len() - j,
    {
        j = j + 1;
    }
    j
}

/// Index of the first whitespace character at or after `i`, or the length.
fn scan_word(s: &Vec<char>, i: usize) -> (r: usize)
    requires
        i <= s.len(),
    ensures
        r == skip_word(s@, i as int),
        i <= r <= s.len(),
{
    let mut j = i;
    while j < s.len() && !is_ascii_space(s[j])
        invariant
            i <= j <= s.len(),
            skip_word(s@, j as int) == skip_word(s@, i as int),
        decreases s.len() - j,
    {
        j = j + 1;
    }
    j
}

fn is_ascii_space(c: char) -> (r: bool)
    ensures
        r == is_space(c),
{
    c == ' ' || c == '\t' || c == '\n' || c == '\u{0C}' || c == '\r'
}

/// Bounds of the next word of `s` that starts at or after `from`.
fn next_word(s: &Vec<char>, from: usize) -> (r: (usize, usize))
    requires
        from <= s.len(),
    ensures
        r.0 == skip_space(s@, from as int),
        r.1 == skip_word(s@, r.0 as int),
        from <= r.0 <= r.1 <= s.len(),
{
    let start = scan_space(s, from);
    let end = scan_word(s, start);
    (start, end)
}


/// The state of one connection; the mail in progress lives in the state.
#[derive(Debug, Clone, PartialEq, Eq)]
pub enum State {
    Fresh,
    Greeted,
    ReceivingRcpt(Mail),
    ReceivingData(Mail),
    Received(Mail),
}

/// The mathematical content of a [`State`].
pub enum StateView {
    Fresh,
    Greeted,
    ReceivingRcpt(MailView),
    ReceivingData(MailView),
    Received(MailView),
}

impl View for State {
    type V = StateView;

    open spec fn view(&self) -> StateView {
        match self {
            State::Fresh => StateView::Fresh,
            State::Greeted => StateView::Greeted,
            State::ReceivingRcpt(m) => StateView::ReceivingRcpt(m@),
            State::ReceivingData(m) => StateView::ReceivingData(m@),
            State::Received(m) => StateView::Received(m@),
        }
    }
}

/// What to answer to one chunk of input.
#[derive(Debug, Clone, PartialEq, Eq)]
pub enum Response {
    /// Send these bytes (as text) at once.
    Immediate(String),
    /// Send nothing yet; more data is expected.
    Deferred,
}

impl View for Response {
    type V = Option<Seq<char>>;

    open spec fn view(&self) -> Option<Seq<char>> {
        match self {
            Response::Immediate(s) => Some(s@),
            Response::Deferred => None,
        }
    }
}

/// Why a `MAIL` or `RCPT` line was rejected.
#[derive(Debug, Clone, Copy, PartialEq, Eq)]
pub enum Malformed {
    /// The line holds no argument after the command.
    MissingArgument,
    /// The argument does not start with `FROM:` (`TO:` for `RCPT`).
    MissingPrefix,
    /// Nothing follows the prefix.
    MissingAddress,
}

/// A failure of the protocol; it ends the connection.
#[derive(Debug, Clone, PartialEq, Eq)]
pub enum ProtocolError {
    /// The input is blank.
    EmptyCommand,
    /// A `MAIL` or `RCPT` line without a usable address.
    Malformed(Malformed),
    /// No rule accepts this input in this state.
    UnexpectedCommand { state: State, line: String },
    /// The input is not valid UTF-8.
    Encoding,
}

/// The mathematical content of a [`ProtocolError`].
pub enum ErrorView {
    EmptyCommand,
    Malformed(Malformed),
    UnexpectedCommand(StateView, Seq<char>),
    Encoding,
}

impl View for ProtocolError {
    type V = ErrorView;

    open spec fn view(&self) -> ErrorView {
        match self {
            ProtocolError::EmptyCommand => ErrorView::EmptyCommand,
            ProtocolError::Malformed(m) => ErrorView::Malformed(*m),
            ProtocolError::UnexpectedCommand { state, line } => ErrorView::UnexpectedCommand(
                state@,
                line@,
            ),
            ProtocolError::Encoding => ErrorView::Encoding,
        }
    }
}

/// What the outcome of one step says: the text to send (`None` for a
/// deferral), or the failure.
pub type Outcome = Result<Option<Seq<char>>, ErrorView>;

/// The mathematical content of the result of a step.
pub open spec fn outcome(r: &Result<Response, ProtocolError>) -> Outcome {
    match r {
        Ok(resp) => Ok(resp@),
        Err(e) => Err(e@),
    }
}

/// The commands that the state machine tells apart.
#[derive(Debug, Clone, Copy, PartialEq, Eq)]
pub enum Command {
    Ehlo,
    Helo,
    Noop,
    Help,
    Info,
    Vrfy,
    Expn,
    Rset,
    Auth,
    Mail,
    Rcpt,
    Data,
    Quit,
    /// Any other word.
    Other,
}

/// The command that a lower-cased word names.
pub open spec fn classify(w: Seq<char>) -> Command {
    if w == "ehlo"@ {
        Command::Ehlo
    } else if w == "helo"@ {
        Command::Helo
    } else if w == "noop"@ {
        Command::Noop
    } else if w == "help"@ {
        Command::Help
    } else if w == "info"@ {
        Command::Info
    } else if w == "vrfy"@ {
        Command::Vrfy
    } else if w == "expn"@ {
        Command::Expn
    } else if w == "rset"@ {
        Command::Rset
    } else if w == "auth"@ {
        Command::Auth
    } else if w == "mail"@ {
        Command::Mail
    } else if w == "rcpt"@ {
        Command::Rcpt
    } else if w == "data"@ {
        Command::Data
    } else if w == "quit"@ {
        Command::Quit
    } else {
        Command::Other
    }
}

/// The commands that answer OK and change nothing, in every state.
pub open spec fn is_inert(c: Command) -> bool {
    c == Command::Noop || c == Command::Help || c == Command::Info || c == Command::Vrfy || c
        == Command::Expn
}

/// Greeting sent when a connection opens.
pub const START: &'static str = "220 tmp-mail\n";

/// Generic success.
pub const OK: &'static str = "250 Ok\n";

/// Acknowledgement of `AUTH`.
pub const AUTH_OK: &'static str = "235 Ok\n";

/// Prompt for the message body.
pub const SEND_DATA: &'static str = "354 End data with <CR><LF>.<CR><LF>\n";

/// Closing reply.
pub const END: &'static str = "221 Bye\n";

/// The reply to `EHLO` for a service domain.
pub open spec fn ehlo_text(domain: Seq<char>) -> Seq<char> {
    "250-"@ + domain + " Hello "@ + domain + "\n250 AUTH PLAIN LOGIN\n"@
}

/// The prefix of a sender argument.
pub open spec fn from_prefix() -> Seq<char> {
    seq!['F', 'R', 'O', 'M', ':']
}

/// The prefix of a recipient argument.
pub open spec fn to_prefix() -> Seq<char> {
    seq!['T', 'O', ':']
}

/// The sequence that ends a message body.
pub open spec fn data_end() -> Seq<char> {
    seq!['\r', '\n', '.', '\r', '\n']
}

pub open spec fn starts_with(s: Seq<char>, p: Seq<char>) -> bool {
    p.len() <= s.len() && s.subrange(0, p.len() as int) == p
}

pub open spec fn ends_with(s: Seq<char>, p: Seq<char>) -> bool {
    p.len() <= s.len() && s.subrange(s.len() - p.len(), s.len() as int) == p
}

/// The address of a `MAIL` or `RCPT` line: the second word must start with
/// `prefix`; the address is the rest of that word, or the third word where
/// the prefix stands alone.
pub open spec fn address(line: Seq<char>, prefix: Seq<char>) -> Result<Seq<char>, Malformed> {
    match word(line, 1) {
        None => Err(Malformed::MissingArgument),
        Some(w) => if !starts_with(w, prefix) {
            Err(Malformed::MissingPrefix)
        } else if w.len() > prefix.len() {
            Ok(w.subrange(prefix.len() as int, w.len() as int))
        } else {
            match word(line, 2) {
                None => Err(Malformed::MissingAddress),
                Some(a) => Ok(a),
            }
        },
    }
}

/// One transition: the next state and the outcome of command `c` read from
/// `line` in state `s`, where `greeting` answers `EHLO`. A failure leaves the
/// machine `Fresh`.
pub open spec fn step(s: StateView, c: Command, line: Seq<char>, greeting: Seq<char>) -> (
    StateView,
    Outcome,
) {
    if c == Command::Ehlo && s is Fresh {
        (StateView::Greeted, Ok(Some(greeting)))
    } else if c == Command::Helo && s is Fresh {
        (StateView::Greeted, Ok(Some(OK@)))
    } else if is_inert(c) {
        (s, Ok(Some(OK@)))
    } else if c == Command::Rset {
        (StateView::Fresh, Ok(Some(OK@)))
    } else if c == Command::Auth {
        (s, Ok(Some(AUTH_OK@)))
    } else if c == Command::Mail && s is Greeted {
        match address(line, from_prefix()) {
            Ok(a) => (
                StateView::ReceivingRcpt(MailView { from: a, to: seq![], data: seq![] }),
                Ok(Some(OK@)),
            ),
            Err(e) => (StateView::Fresh, Err(ErrorView::Malformed(e))),
        }
    } else if c == Command::Rcpt && s is ReceivingRcpt {
        let m = s->ReceivingRcpt_0;
        match address(line, to_prefix()) {
            Ok(a) => (StateView::ReceivingRcpt(MailView { to: m.to.push(a), ..m }), Ok(Some(OK@))),
            Err(e) => (StateView::Fresh, Err(ErrorView::Malformed(e))),
        }
    } else if c == Command::Data && s is ReceivingRcpt {
        (StateView::ReceivingData(s->ReceivingRcpt_0), Ok(Some(SEND_DATA@)))
    } else if c == Command::Quit && s is ReceivingData {
        (StateView::Received(s->ReceivingData_0), Ok(Some(END@)))
    } else if c == Command::Quit {
        (s, Ok(Some(END@)))
    } else if s is ReceivingData {
        let m = s->ReceivingData_0;
        (
            StateView::ReceivingData(MailView { data: m.data + line, ..m }),
            Ok(
                if ends_with(line, data_end()) {
                    Some(OK@)
                } else {
                    None
                },
            ),
        )
    } else {
        (StateView::Fresh, Err(ErrorView::UnexpectedCommand(s, line)))
    }
}

/// Names what `str::to_lowercase` returns for a string.
pub uninterp spec fn lower_of(s: Seq<char>) -> Seq<char>;

/// The command that input `line` carries: its first word, lower-cased.
pub open spec fn command_of(line: Seq<char>) -> Option<Command> {
    match word(line, 0) {
        None => None,
        Some(w) => Some(classify(lower_of(w))),
    }
}

/// The whole handling of one chunk of input: blank input fails and changes
/// nothing, any other input makes one [`step`].
pub open spec fn handle(s: StateView, line: Seq<char>, greeting: Seq<char>) -> (StateView, Outcome) {
    match command_of(line) {
        None => (s, Err(ErrorView::EmptyCommand)),
        Some(c) => step(s, c, line, greeting),
    }
}


/// Relies on `str::to_lowercase`: the result depends on the characters alone.
#[verifier::external_body]
fn lowercase(s: &str) -> (r: String)
    ensures
        r@ == lower_of(s@),
{
    s.to_lowercase()
}

/// Whether `s` and `w` hold the same characters.
pub(crate) fn same_text(s: &str, w: &str) -> (r: bool)
    ensures
        r == (s@ == w@),
{
    let n = s.unicode_len();
    let m = w.unicode_len();
    if n != m {
        return false;
    }
    let mut i: usize = 0;
    while i < n
        invariant
            n == s@.len(),
            m == w@.len(),
            n == m,
            i <= n,
            forall|j: int| 0 <= j < i ==> s@[j] == w@[j],
        decreases n - i,
    {
        if s.get_char(i) != w.get_char(i) {
            return false;
        }
        i = i + 1;
    }
    assert(s@ =~= w@);
    true
}

/// The command that a lower-cased word names.
fn classify_word(w: &str) -> (c: Command)
    ensures
        c == classify(w@),
{
    if same_text(w, "ehlo") {
        Command::Ehlo
    } else if same_text(w, "helo") {
        Command::Helo
    } else if same_text(w, "noop") {
        Command::Noop
    } else if same_text(w, "help") {
        Command::Help
    } else if same_text(w, "info") {
        Command::Info
    } else if same_text(w, "vrfy") {
        Command::Vrfy
    } else if same_text(w, "expn") {
        Command::Expn
    } else if same_text(w, "rset") {
        Command::Rset
    } else if same_text(w, "auth") {
        Command::Auth
    } else if same_text(w, "mail") {
        Command::Mail
    } else if same_text(w, "rcpt") {
        Command::Rcpt
    } else if same_text(w, "data") {
        Command::Data
    } else if same_text(w, "quit") {
        Command::Quit
    } else {
        Command::Other
    }
}

/// Whether `s[start..end]` begins with `p`.
fn has_prefix(s: &Vec<char>, start: usize, end: usize, p: &Vec<char>) -> (r: bool)
    requires
        start <= end <= s.len(),
    ensures
        r == starts_with(s@.subrange(start as int, end as int), p@),
{
    if p.len() > end - start {
        return false;
    }
    let mut i: usize = 0;
    while i < p.len()
        invariant
            start <= end <= s.len(),
            p.len() <= end - start,
            i <= p.len(),
            forall|j: int| 0 <= j < i ==> s@[start + j] == p@[j],
        decreases p.len() - i,
    {
        if s[start + i] != p[i] {
            return false;
        }
        i = i + 1;
    }
    assert(s@.subrange(start as int, end as int).subrange(0, p.len() as int) =~= p@);
    true
}

/// Whether `s` ends with the body terminator.
fn ends_with_data_end(s: &Vec<char>) -> (r: bool)
    ensures
        r == ends_with(s@, data_end()),
{
    let t = vec!['\r', '\n', '.', '\r', '\n'];
    assert(t@ == data_end());
    if s.len() < t.len() {
        return false;
    }
    let base = s.len() - t.len();
    let mut i: usize = 0;
    while i < t.len()
        invariant
            t@ == data_end(),
            base + t.len() == s.len(),
            i <= t.len(),
            forall|j: int| 0 <= j < i ==> s@[base + j] == t@[j],
        decreases t.len() - i,
    {
        if s[base + i] != t[i] {
            return false;
        }
        i = i + 1;
    }
    assert(s@.subrange(base as int, s.len() as int) =~= t@);
    true
}

/// The address of a `MAIL` or `RCPT` line whose characters are `chars`.
fn parse_address(line: &str, chars: &Vec<char>, prefix: &Vec<char>) -> (r: Result<String, Malformed>)
    requires
        chars@ == line@,
    ensures
        match r {
            Ok(a) => address(line@, prefix@) == Ok::<Seq<char>, Malformed>(a@),
            Err(e) => address(line@, prefix@) == Err::<Seq<char>, Malformed>(e),
        },
{
    let ghost s = line@;
    let (_, e0) = next_word(chars, 0);
    let (a1, e1) = next_word(chars, e0);
    assert(word_bounds(s, 0) == (skip_space(s, 0), e0 as int));
    assert(word_bounds(s, 1) == (a1 as int, e1 as int));
    if a1 >= chars.len() {
        return Err(Malformed::MissingArgument);
    }
    if !has_prefix(chars, a1, e1, prefix) {
        return Err(Malformed::MissingPrefix);
    }
    if e1 - a1 > prefix.len() {
        let r = line.substring_char(a1 + prefix.len(), e1).to_owned();
        assert(r@ =~= s.subrange(a1 as int, e1 as int).subrange(
            prefix@.len() as int,
            e1 - a1,
        ));
        return Ok(r);
    }
    let (a2, e2) = next_word(chars, e1);
    assert(word_bounds(s, 2) == (a2 as int, e2 as int));
    if a2 >= chars.len() {
        return Err(Malformed::MissingAddress);
    }
    Ok(line.substring_char(a2, e2).to_owned())
}

/// State machine that receives one mail over one connection.
pub struct StateMachine {
    pub state: State,
    /// The reply to `EHLO`, fixed when the machine is made.
    pub ehlo_greeting: String,
}

impl StateMachine {
    /// The reply that this machine gives to `EHLO`.
    pub open spec fn greeting(&self) -> Seq<char> {
        self.ehlo_greeting@
    }

    /// A machine in state `Fresh` that names `domain` in its `EHLO` reply.
    pub fn new(domain: &str) -> (r: StateMachine)
        ensures
            r.state@ == StateView::Fresh,
            r.greeting() == ehlo_text(domain@),
    {
        let mut ehlo_greeting = String::from_str("250-");
        ehlo_greeting.append(domain);
        ehlo_greeting.append(" Hello ");
        ehlo_greeting.append(domain);
        ehlo_greeting.append("\n250 AUTH PLAIN LOGIN\n");
        StateMachine { state: State::Fresh, ehlo_greeting }
    }

    /// Makes the transition of `command`, a lower-cased command word, on the
    /// whole input `line`.
    pub fn handle_command(&mut self, command: &str, line: &str) -> (r: Result<
        Response,
        ProtocolError,
    >)
        ensures
            (final(self).state@, outcome(&r)) == step(
                old(self).state@,
                classify(command@),
                line@,
                old(self).greeting(),
            ),
            final(self).greeting() == old(self).greeting(),
    {
        let c = classify_word(command);
        let mut state = State::Fresh;
        std::mem::swap(&mut self.state, &mut state);
        let ghost s = state@;
        match (c, state) {
            (Command::Ehlo, State::Fresh) => {
                self.state = State::Greeted;
                Ok(Response::Immediate(self.ehlo_greeting.clone()))
            },
            (Command::Helo, State::Fresh) => {
                self.state = State::Greeted;
                Ok(Response::Immediate(String::from_str(OK)))
            },
            (Command::Noop, state) | (Command::Help, state) | (Command::Info, state) | (
                Command::Vrfy,
                state,
            ) | (Command::Expn, state) => {
                self.state = state;
                Ok(Response::Immediate(String::from_str(OK)))
            },
            (Command::Rset, _) => {
                self.state = State::Fresh;
                Ok(Response::Immediate(String::from_str(OK)))
            },
            (Command::Auth, state) => {
                self.state = state;
                Ok(Response::Immediate(String::from_str(AUTH_OK)))
            },
            (Command::Mail, State::Greeted) => {
                let chars = chars_of(line);
                let prefix = vec!['F', 'R', 'O', 'M', ':'];
                assert(prefix@ == from_prefix());
                match parse_address(line, &chars, &prefix) {
                    Ok(from) => {
                        let mail = Mail { from, to: Vec::new(), data: String::new() };
                        assert(mail@.to =~= Seq::<Seq<char>>::empty());
                        self.state = State::ReceivingRcpt(mail);
                        Ok(Response::Immediate(String::from_str(OK)))
                    },
                    Err(e) => Err(ProtocolError::Malformed(e)),
                }
            },
            (Command::Rcpt, State::ReceivingRcpt(mut mail)) => {
                let chars = chars_of(line);
                let prefix = vec!['T', 'O', ':'];
                assert(prefix@ == to_prefix());
                match parse_address(line, &chars, &prefix) {
                    Ok(to) => {
                        let ghost before = mail;
                        let ghost a = to@;
                        mail.to.push(to);
                        assert(strings_view(mail.to@) =~= strings_view(before.to@).push(a));
                        self.state = State::ReceivingRcpt(mail);
                        Ok(Response::Immediate(String::from_str(OK)))
                    },
                    Err(e) => Err(ProtocolError::Malformed(e)),
                }
            },
            (Command::Data, State::ReceivingRcpt(mail)) => {
                self.state = State::ReceivingData(mail);
                Ok(Response::Immediate(String::from_str(SEND_DATA)))
            },
            (Command::Quit, State::ReceivingData(mail)) => {
                self.state = State::Received(mail);
                Ok(Response::Immediate(String::from_str(END)))
            },
            (Command::Quit, state) => {
                self.state = state;
                Ok(Response::Immediate(String::from_str(END)))
            },
            (_, State::ReceivingData(mut mail)) => {
                let chars = chars_of(line);
                let resp = if ends_with_data_end(&chars) {
                    Response::Immediate(String::from_str(OK))
                } else {
                    Response::Deferred
                };
                mail.data.append(line);
                self.state = State::ReceivingData(mail);
                Ok(resp)
            },
            (_, state) => {
                Err(ProtocolError::UnexpectedCommand { state, line: line.to_owned() })
            },
        }
    }

    /// Handles one chunk of input and returns the reply to send.
    pub fn handle_smtp(&mut self, raw_msg: &str) -> (r: Result<Response, ProtocolError>)
        ensures
            (final(self).state@, outcome(&r)) == handle(
                old(self).state@,
                raw_msg@,
                old(self).greeting(),
            ),
            final(self).greeting() == old(self).greeting(),
    {
        let chars = chars_of(raw_msg);
        let (start, end) = next_word(&chars, 0);
        assert(word_bounds(raw_msg@, 0) == (start as int, end as int));
        if start >= chars.len() {
            return Err(ProtocolError::EmptyCommand);
        }
        let command = lowercase(raw_msg.substring_char(start, end));
        self.handle_command(command.as_str(), raw_msg)
    }
}


/// Feeds `lines` one by one from state `s`; the first failure ends the run,
/// as it ends a connection.
pub open spec fn run(s: StateView, lines: Seq<Seq<char>>, greeting: Seq<char>) -> Result<
    StateView,
    ErrorView,
>
    decreases lines.len(),
{
    if lines.len() == 0 {
        Ok(s)
    } else {
        let (next, out) = handle(s, lines[0], greeting);
        match out {
            Err(e) => Err(e),
            Ok(_) => run(next, lines.drop_first(), greeting),
        }
    }
}

/// A chunk of message body: its first word names no command that the
/// `ReceivingData` state answers itself.
pub open spec fn is_body_chunk(line: Seq<char>) -> bool {
    match command_of(line) {
        None => false,
        Some(c) => !is_inert(c) && c != Command::Rset && c != Command::Auth && c != Command::Quit,
    }
}

/// All `parts` joined end to end.
pub open spec fn concat(parts: Seq<Seq<char>>) -> Seq<char>
    decreases parts.len(),
{
    if parts.len() == 0 {
        seq![]
    } else {
        concat(parts.drop_last()) + parts.last()
    }
}

/// Running `a` then `b` is running `a + b`.
pub proof fn lemma_run_append(
    s: StateView,
    a: Seq<Seq<char>>,
    b: Seq<Seq<char>>,
    greeting: Seq<char>,
)
    ensures
        run(s, a + b, greeting) == match run(s, a, greeting) {
            Ok(t) => run(t, b, greeting),
            Err(e) => Err(e),
        },
    decreases a.len(),
{
    if a.len() == 0 {
        assert(a + b =~= b);
    } else {
        assert((a + b)[0] == a[0]);
        assert((a + b).drop_first() =~= a.drop_first() + b);
        let (next, out) = handle(s, a[0], greeting);
        if out is Ok {
            lemma_run_append(next, a.drop_first(), b, greeting);
        }
    }
}

proof fn lemma_run_one(s: StateView, line: Seq<char>, greeting: Seq<char>)
    ensures
        run(s, seq![line], greeting) == match handle(s, line, greeting).1 {
            Ok(_) => Ok::<StateView, ErrorView>(handle(s, line, greeting).0),
            Err(e) => Err(e),
        },
{
    assert(seq![line].drop_first() =~= Seq::<Seq<char>>::empty());
    let next = handle(s, line, greeting).0;
    assert(run(next, seq![line].drop_first(), greeting) == Ok::<StateView, ErrorView>(next));
}

/// Recipients that follow one another are kept in arrival order.
proof fn lemma_run_recipients(m: MailView, rcpts: Seq<Seq<char>>, greeting: Seq<char>)
    requires
        forall|i: int|
            0 <= i < rcpts.len() ==> command_of(#[trigger] rcpts[i]) == Some(Command::Rcpt)
                && address(rcpts[i], to_prefix()) is Ok,
    ensures
        run(StateView::ReceivingRcpt(m), rcpts, greeting) == Ok::<StateView, ErrorView>(
            StateView::ReceivingRcpt(
                MailView {
                    to: m.to + rcpts.map_values(|r: Seq<char>| address(r, to_prefix())->Ok_0),
                    ..m
                },
            ),
        ),
    decreases rcpts.len(),
{
    let f = |r: Seq<char>| address(r, to_prefix())->Ok_0;
    if rcpts.len() == 0 {
        assert(m.to + rcpts.map_values(f) =~= m.to);
    } else {
        let init = rcpts.drop_last();
        let last = rcpts.last();
        assert(rcpts =~= init + seq![last]);
        lemma_run_recipients(m, init, greeting);
        lemma_run_append(StateView::ReceivingRcpt(m), init, seq![last], greeting);
        let mid = MailView { to: m.to + init.map_values(f), ..m };
        lemma_run_one(StateView::ReceivingRcpt(mid), last, greeting);
        assert(command_of(rcpts[rcpts.len() - 1]) == Some(Command::Rcpt));
        assert(mid.to.push(f(last)) =~= m.to + rcpts.map_values(f));
    }
}

/// Body chunks are appended, in order, to the data of the mail.
proof fn lemma_run_body(m: MailView, chunks: Seq<Seq<char>>, greeting: Seq<char>)
    requires
        forall|i: int| 0 <= i < chunks.len() ==> is_body_chunk(#[trigger] chunks[i]),
    ensures
        run(StateView::ReceivingData(m), chunks, greeting) == Ok::<StateView, ErrorView>(
            StateView::ReceivingData(MailView { data: m.data + concat(chunks), ..m }),
        ),
    decreases chunks.len(),
{
    if chunks.len() == 0 {
        assert(m.data + concat(chunks) =~= m.data);
    } else {
        let init = chunks.drop_last();
        let last = chunks.last();
        assert(chunks =~= init + seq![last]);
        lemma_run_body(m, init, greeting);
        lemma_run_append(StateView::ReceivingData(m), init, seq![last], greeting);
        let mid = MailView { data: m.data + concat(init), ..m };
        lemma_run_one(StateView::ReceivingData(mid), last, greeting);
        assert(is_body_chunk(chunks[chunks.len() - 1]));
        assert(mid.data + last =~= m.data + concat(chunks));
    }
}

/// A session of `HELO`, `MAIL`, any number of `RCPT`, `DATA`, body chunks and
/// `QUIT` succeeds at every step and ends in `Received`, holding the sender,
/// the recipients in arrival order and the chunks joined in order.
pub proof fn lemma_complete_session(
    greeting: Seq<char>,
    helo: Seq<char>,
    mail: Seq<char>,
    rcpts: Seq<Seq<char>>,
    data: Seq<char>,
    chunks: Seq<Seq<char>>,
    quit: Seq<char>,
)
    requires
        command_of(helo) == Some(Command::Helo),
        command_of(mail) == Some(Command::Mail),
        address(mail, from_prefix()) is Ok,
        forall|i: int|
            0 <= i < rcpts.len() ==> command_of(#[trigger] rcpts[i]) == Some(Command::Rcpt)
                && address(rcpts[i], to_prefix()) is Ok,
        command_of(data) == Some(Command::Data),
        forall|i: int| 0 <= i < chunks.len() ==> is_body_chunk(#[trigger] chunks[i]),
        command_of(quit) == Some(Command::Quit),
    ensures
        run(
            StateView::Fresh,
            seq![helo, mail] + rcpts + seq![data] + chunks + seq![quit],
            greeting,
        ) == Ok::<StateView, ErrorView>(
            StateView::Received(
                MailView {
                    from: address(mail, from_prefix())->Ok_0,
                    to: rcpts.map_values(|r: Seq<char>| address(r, to_prefix())->Ok_0),
                    data: concat(chunks),
                },
            ),
        ),
{
    let m0 = MailView { from: address(mail, from_prefix())->Ok_0, to: seq![], data: seq![] };
    let f = |r: Seq<char>| address(r, to_prefix())->Ok_0;
    let m1 = MailView { to: m0.to + rcpts.map_values(f), ..m0 };
    let m2 = MailView { data: m1.data + concat(chunks), ..m1 };
    let a = seq![helo, mail];
    lemma_run_append(StateView::Fresh, seq![helo], seq![mail], greeting);
    assert(seq![helo] + seq![mail] =~= a);
    lemma_run_one(StateView::Fresh, helo, greeting);
    lemma_run_one(StateView::Greeted, mail, greeting);
    assert(run(StateView::Fresh, a, greeting) == Ok::<StateView, ErrorView>(
        StateView::ReceivingRcpt(m0),
    ));
    lemma_run_append(StateView::Fresh, a, rcpts, greeting);
    lemma_run_recipients(m0, rcpts, greeting);
    lemma_run_append(StateView::Fresh, a + rcpts, seq![data], greeting);
    lemma_run_one(StateView::ReceivingRcpt(m1), data, greeting);
    lemma_run_append(StateView::Fresh, a + rcpts + seq![data], chunks, greeting);
    lemma_run_body(m1, chunks, greeting);
    lemma_run_append(StateView::Fresh, a + rcpts + seq![data] + chunks, seq![quit], greeting);
    lemma_run_one(StateView::ReceivingData(m2), quit, greeting);
    assert(m1.to =~= rcpts.map_values(f));
    assert(m2.data =~= concat(chunks));
}

/// In `Fresh`, every command but `EHLO`, `HELO`, the inert ones, `RSET`,
/// `AUTH` and `QUIT` fails as unexpected and leaves the machine `Fresh`.
pub proof fn lemma_fresh_rejects(line: Seq<char>, greeting: Seq<char>)
    requires
        command_of(line) matches Some(c) && c != Command::Ehlo && c != Command::Helo && !is_inert(c)
            && c != Command::Rset && c != Command::Auth && c != Command::Quit,
    ensures
        handle(StateView::Fresh, line, greeting) == (
            StateView::Fresh,
            Err::<Option<Seq<char>>, ErrorView>(
                ErrorView::UnexpectedCommand(StateView::Fresh, line),
            ),
        ),
{
}

/// The inert commands answer OK and keep the state, from every state; a
/// second one does exactly what the first did.
pub proof fn lemma_inert_idempotent(s: StateView, line: Seq<char>, greeting: Seq<char>)
    requires
        command_of(line) matches Some(c) && is_inert(c),
    ensures
        handle(s, line, greeting) == (s, Ok::<Option<Seq<char>>, ErrorView>(Some(OK@))),
        handle(handle(s, line, greeting).0, line, greeting) == handle(s, line, greeting),
{
}

/// `RSET` answers OK and returns every state to `Fresh`.
pub proof fn lemma_reset(s: StateView, line: Seq<char>, greeting: Seq<char>)
    requires
        command_of(line) == Some(Command::Rset),
    ensures
        handle(s, line, greeting) == (
            StateView::Fresh,
            Ok::<Option<Seq<char>>, ErrorView>(Some(OK@)),
        ),
{
}

} // verus!

//! A terminal session: the initial exchange, and then terminal input and output, the
//! window size and keepalives, until it ends.
//!
//! The session makes no system calls. It says what is to be done next, and is told
//! what came of it and what time it is. Times are in milliseconds.

use vstd::prelude::*;
use vstd::utf8::*;

use crate::packet::{Packet, PacketView};
use crate::proto::initial::{InitialPayloadView, InitialResponseView};
use crate::proto::layout;
use crate::proto::message;
use crate::proto::message::MessageSpec;
use crate::proto::terminal::{TerminalBufferView, TerminalInfoView};
use crate::proto::wire;
use crate::proto::{
    et_packet, terminal_packet, EnvironmentVariables, InitialPayload, InitialResponse, ProtoError,
    ProtoMessage, TerminalBuffer, TerminalInfo,
};

verus! {

/// The number of seconds between two keepalives, unless told otherwise.
pub const DEFAULT_KEEPALIVE_SECS: u64 = 5;

/// How long the server may take for its first answer.
pub const RESPONSE_TIMEOUT_MS: u64 = 3000;

/// How often the first answer is looked for.
pub const RESPONSE_POLL_MS: u64 = 20;

/// How long to wait for local input.
pub const INPUT_POLL_MS: u64 = 5;

/// How long to wait in each round where there is no console, with a socket and
/// without.
pub const ONLINE_PAUSE_MS: u64 = 10;

pub const OFFLINE_PAUSE_MS: u64 = 50;

/// How a session is to be run.
#[derive(Debug, Clone)]
pub struct ClientOptions {
    /// A command to run first.
    pub command: Option<String>,
    /// Whether the session goes on after that command.
    pub no_exit: bool,
    pub keepalive_secs: u64,
    /// Whether the server is a jump host.
    pub jumphost: bool,
    /// Whether the session has no local console.
    pub no_terminal: bool,
}

impl Default for ClientOptions {
    fn default() -> (r: Self)
        ensures
            r.command is None,
            !r.no_exit,
            r.keepalive_secs == DEFAULT_KEEPALIVE_SECS,
            !r.jumphost,
            !r.no_terminal,
    {
        ClientOptions {
            command: None,
            no_exit: false,
            keepalive_secs: DEFAULT_KEEPALIVE_SECS,
            jumphost: false,
            no_terminal: false,
        }
    }
}

/// Why a session failed.
#[derive(Debug, Clone)]
pub enum SessionError {
    /// The initial payload could not be sent.
    InitialNotSent,
    /// The first packet of the server has another type than its answer.
    UnexpectedHeader(u8),
    /// The server turned the session down. Holds what it said.
    Rejected(String),
    /// The server did not answer in time.
    Timeout,
    /// A message of the server could not be read.
    Decode(ProtoError),
}

pub enum SessionErrorView {
    InitialNotSent,
    UnexpectedHeader(u8),
    Rejected(Seq<char>),
    Timeout,
    Decode(ProtoError),
}

impl View for SessionError {
    type V = SessionErrorView;

    open spec fn view(&self) -> SessionErrorView {
        match self {
            SessionError::InitialNotSent => SessionErrorView::InitialNotSent,
            SessionError::UnexpectedHeader(h) => SessionErrorView::UnexpectedHeader(*h),
            SessionError::Rejected(error) => SessionErrorView::Rejected(error@),
            SessionError::Timeout => SessionErrorView::Timeout,
            SessionError::Decode(e) => SessionErrorView::Decode(*e),
        }
    }
}

/// A packet in the clear.
pub open spec fn plain(header: u8, payload: Seq<u8>) -> PacketView {
    PacketView { encrypted: false, header, payload }
}

/// The first packet of a session. Only a jump host is told that it is one.
pub open spec fn initial_packet(jumphost: bool) -> PacketView {
    plain(
        et_packet::INITIAL_PAYLOAD,
        message::encoding::<InitialPayload>(
            InitialPayloadView {
                jumphost: if jumphost {
                    Some(true)
                } else {
                    None
                },
                reverse_tunnels: Seq::empty(),
                environment_variables: Seq::empty(),
            },
        ),
    )
}

/// A packet of terminal input.
pub open spec fn input_packet(bytes: Seq<u8>) -> PacketView {
    plain(
        terminal_packet::TERMINAL_BUFFER,
        message::encoding::<TerminalBuffer>(TerminalBufferView { buffer: Some(bytes) }),
    )
}

/// What is typed for a command: the shell is left after it, unless it is to stay.
pub open spec fn command_line(command: Seq<char>, no_exit: bool) -> Seq<char> {
    if no_exit {
        command + "\n"@
    } else {
        command + "; exit\n"@
    }
}

/// A packet with the size of the window.
pub open spec fn size_packet(info: TerminalInfoView) -> PacketView {
    plain(terminal_packet::TERMINAL_INFO, message::encoding::<TerminalInfo>(info))
}

pub open spec fn keepalive_packet() -> PacketView {
    plain(terminal_packet::KEEP_ALIVE, Seq::empty())
}

/// What the first packet of the server means for the session.
pub open spec fn initial_answer(p: PacketView) -> Result<(), SessionErrorView> {
    if p.header != et_packet::INITIAL_RESPONSE {
        Err(SessionErrorView::UnexpectedHeader(p.header))
    } else {
        match message::decoding::<InitialResponse>(p.payload) {
            Err(e) => Err(SessionErrorView::Decode(e)),
            Ok(InitialResponseView { error: Some(error) }) if error.len() > 0 => Err(
                SessionErrorView::Rejected(error),
            ),
            Ok(_) => Ok(()),
        }
    }
}

fn build_initial_packet(jumphost: bool) -> (r: Packet)
    ensures
        r@ == initial_packet(jumphost),
{
    let payload = InitialPayload {
        jumphost: if jumphost {
            Some(true)
        } else {
            None
        },
        reverse_tunnels: Vec::new(),
        environment_variables: EnvironmentVariables::new(),
    };
    assert(payload@.reverse_tunnels =~= Seq::empty());
    Packet::new(et_packet::INITIAL_PAYLOAD, payload.encode())
}

fn build_input_packet(bytes: Vec<u8>) -> (r: Packet)
    ensures
        r@ == input_packet(bytes@),
{
    let buffer = TerminalBuffer { buffer: Some(bytes) };
    Packet::new(terminal_packet::TERMINAL_BUFFER, buffer.encode())
}

fn build_command_packet(command: &str, no_exit: bool) -> (r: Packet)
    ensures
        r@ == input_packet(encode_utf8(command_line(command@, no_exit))),
{
    let mut line: String = command.to_owned();
    if no_exit {
        line.append("\n");
    } else {
        line.append("; exit\n");
    }
    build_input_packet(vstd::slice::slice_to_vec(line.as_str().as_bytes()))
}

/// Reads the server's answer to the initial payload.
pub fn check_initial_response(packet: &Packet) -> (r: Result<(), SessionError>)
    ensures
        match r {
            Ok(_) => initial_answer(packet@) == Ok::<(), SessionErrorView>(()),
            Err(e) => initial_answer(packet@) == Err::<(), SessionErrorView>(e@),
        },
{
    if packet.header() != et_packet::INITIAL_RESPONSE {
        return Err(SessionError::UnexpectedHeader(packet.header()));
    }
    match InitialResponse::decode(packet.payload()) {
        Err(e) => Err(SessionError::Decode(e)),
        Ok(response) => match response.error {
            Some(error) => {
                if error.as_str().unicode_len() > 0 {
                    Err(SessionError::Rejected(error))
                } else {
                    Ok(())
                }
            },
            None => Ok(()),
        },
    }
}

fn same_text(a: &Option<String>, b: &Option<String>) -> (r: bool)
    ensures
        r == (message::opt_view(*a) == message::opt_view(*b)),
{
    match (a, b) {
        (Some(x), Some(y)) => *x == *y,
        (None, None) => true,
        _ => false,
    }
}

fn same_number(a: Option<i32>, b: Option<i32>) -> (r: bool)
    ensures
        r == (a == b),
{
    match (a, b) {
        (Some(x), Some(y)) => x == y,
        (None, None) => true,
        _ => false,
    }
}

fn same_size(a: &TerminalInfo, b: &TerminalInfo) -> (r: bool)
    ensures
        r == (a@ == b@),
{
    same_text(&a.id, &b.id) && same_number(a.row, b.row) && same_number(a.column, b.column)
        && same_number(a.width, b.width) && same_number(a.height, b.height)
}

/// What a session waits for.
#[derive(Debug, Clone, Copy, PartialEq, Eq, Structural)]
pub enum Phase {
    /// The start.
    Start,
    /// The initial payload is being written.
    InitialWrite,
    /// The server's answer is being looked for.
    Response,
    /// The same, after a pause.
    ResponsePause,
    /// The console is being opened.
    OpenConsole,
    /// The command is being written.
    CommandWrite,
    /// The user is being told that the session runs.
    Announce,
    /// The state of the connection is being asked for, at the start of a round.
    Status,
    /// What the server has sent is being read.
    Drain,
    /// What the server has sent is being shown.
    Show,
    /// A keepalive is being written.
    KeepaliveWrite,
    /// The connection is being opened again.
    Reconnect,
    /// Local input is being looked for.
    Input,
    /// Local input is being written.
    InputWrite,
    /// The size of the window is being asked for.
    Size,
    /// The size of the window is being written.
    SizeWrite,
    /// The state of the socket is being asked for, at the end of a round without a
    /// console.
    Socket,
    /// The pause at the end of such a round.
    Pause,
    /// The end.
    Over,
}

/// What came of an action.
#[derive(Debug)]
pub enum SessionEvent {
    /// It has been done. Also starts the session.
    Done,
    /// Whether the packet has been taken.
    Wrote(bool),
    /// The next packet, if there is one.
    Read(Option<Packet>),
    /// The state of the connection, and whether the user has interrupted.
    Status { shutting_down: bool, interrupted: bool, has_socket: bool },
    /// Local input, if there is any.
    Input(Option<Vec<u8>>),
    /// The console has failed.
    InputFailed,
    /// The size of the window.
    Size(TerminalInfo),
    /// Whether there is a socket.
    Socket(bool),
}

pub enum SessionEventView {
    Done,
    Wrote(bool),
    Read(Option<PacketView>),
    Status { shutting_down: bool, interrupted: bool, has_socket: bool },
    Input(Option<Seq<u8>>),
    InputFailed,
    Size(TerminalInfoView),
    Socket(bool),
}

impl View for SessionEvent {
    type V = SessionEventView;

    open spec fn view(&self) -> SessionEventView {
        match self {
            SessionEvent::Done => SessionEventView::Done,
            SessionEvent::Wrote(taken) => SessionEventView::Wrote(*taken),
            SessionEvent::Read(p) => SessionEventView::Read(message::opt_view(*p)),
            SessionEvent::Status { shutting_down, interrupted, has_socket } => {
                SessionEventView::Status {
                    shutting_down: *shutting_down,
                    interrupted: *interrupted,
                    has_socket: *has_socket,
                }
            },
            SessionEvent::Input(b) => SessionEventView::Input(message::opt_view(*b)),
            SessionEvent::InputFailed => SessionEventView::InputFailed,
            SessionEvent::Size(info) => SessionEventView::Size(info@),
            SessionEvent::Socket(alive) => SessionEventView::Socket(*alive),
        }
    }
}

/// What a session wants done.
#[derive(Debug)]
pub enum SessionAction {
    /// Write a packet.
    Write(Packet),
    /// Read the next packet.
    Read,
    /// Wait for so many milliseconds.
    Pause(u64),
    /// Open the console.
    OpenConsole,
    /// Tell the user that the session runs.
    Announce,
    /// Ask for the state of the connection, and whether the user has interrupted.
    CheckStatus,
    /// Show what the server has sent.
    Show(Vec<u8>),
    /// Open the connection again.
    Reconnect,
    /// Look for local input, for so many milliseconds at most.
    PollInput(u64),
    /// Ask for the size of the window.
    QuerySize,
    /// Ask whether there is a socket.
    CheckSocket,
    /// End the session.
    Close,
    /// End the session with an error.
    Fail(SessionError),
}

pub enum SessionActionView {
    Write(PacketView),
    Read,
    Pause(u64),
    OpenConsole,
    Announce,
    CheckStatus,
    Show(Seq<u8>),
    Reconnect,
    PollInput(u64),
    QuerySize,
    CheckSocket,
    Close,
    Fail(SessionErrorView),
}

impl View for SessionAction {
    type V = SessionActionView;

    open spec fn view(&self) -> SessionActionView {
        match self {
            SessionAction::Write(p) => SessionActionView::Write(p@),
            SessionAction::Read => SessionActionView::Read,
            SessionAction::Pause(ms) => SessionActionView::Pause(*ms),
            SessionAction::OpenConsole => SessionActionView::OpenConsole,
            SessionAction::Announce => SessionActionView::Announce,
            SessionAction::CheckStatus => SessionActionView::CheckStatus,
            SessionAction::Show(b) => SessionActionView::Show(b@),
            SessionAction::Reconnect => SessionActionView::Reconnect,
            SessionAction::PollInput(ms) => SessionActionView::PollInput(*ms),
            SessionAction::QuerySize => SessionActionView::QuerySize,
            SessionAction::CheckSocket => SessionActionView::CheckSocket,
            SessionAction::Close => SessionActionView::Close,
            SessionAction::Fail(e) => SessionActionView::Fail(e@),
        }
    }
}

/// The state of a session.
#[verifier::ext_equal]
pub struct SessionView {
    pub phase: Phase,
    pub command: Option<Seq<char>>,
    pub no_exit: bool,
    pub jumphost: bool,
    pub has_console: bool,
    /// The time between two keepalives.
    pub keepalive_ms: int,
    /// The start of the time that is running: for the server's answer, later for the
    /// next keepalive.
    pub since: int,
    /// Whether the last keepalive has not been answered.
    pub waiting: bool,
    /// The size of the window that the server was told last.
    pub last_info: TerminalInfoView,
    /// What the server has sent and is still to be shown.
    pub output: Seq<u8>,
}

impl SessionView {
    /// The session in another phase.
    pub open spec fn at(self, phase: Phase) -> SessionView {
        SessionView { phase, ..self }
    }

    /// The start of a round.
    pub open spec fn next_round(self) -> (SessionView, SessionActionView) {
        (self.at(Phase::Status), SessionActionView::CheckStatus)
    }

    /// The start of the first round, in which the time to the first keepalive begins.
    pub open spec fn first_round(self, now: int) -> (SessionView, SessionActionView) {
        SessionView { since: now, ..self }.next_round()
    }

    /// What comes before the first round: without a console the user is told that
    /// the session runs.
    pub open spec fn announcing(self, now: int) -> (SessionView, SessionActionView) {
        if self.has_console {
            self.first_round(now)
        } else {
            (self.at(Phase::Announce), SessionActionView::Announce)
        }
    }

    /// What comes once the console is open: the command, if there is one.
    pub open spec fn opened(self, now: int) -> (SessionView, SessionActionView) {
        match self.command {
            Some(command) => (
                self.at(Phase::CommandWrite),
                SessionActionView::Write(
                    input_packet(encode_utf8(command_line(command, self.no_exit))),
                ),
            ),
            None => self.announcing(now),
        }
    }

    /// The second half of a round, which is for local input.
    pub open spec fn local_half(self) -> (SessionView, SessionActionView) {
        if self.has_console {
            (self.at(Phase::Input), SessionActionView::PollInput(INPUT_POLL_MS))
        } else {
            (self.at(Phase::Socket), SessionActionView::CheckSocket)
        }
    }

    /// What the time means for keepalives: once it has run out, the next one is
    /// written; where the last one has not been answered by then, the connection is
    /// opened again.
    pub open spec fn keepalive(self, now: int) -> (SessionView, SessionActionView) {
        let restarted = SessionView { since: now, ..self };
        if now < self.since + self.keepalive_ms {
            self.local_half()
        } else if self.waiting {
            (restarted.at(Phase::Reconnect), SessionActionView::Reconnect)
        } else {
            (restarted.at(Phase::KeepaliveWrite), SessionActionView::Write(keepalive_packet()))
        }
    }

    /// A session once it has read a packet in a round. Terminal output counts as a
    /// sign of life, but only where there is a console to show it.
    pub open spec fn with_packet(self, p: PacketView, now: int) -> Result<SessionView, ProtoError> {
        if p.header == terminal_packet::TERMINAL_BUFFER && self.has_console {
            match message::decoding::<TerminalBuffer>(p.payload) {
                Ok(TerminalBufferView { buffer }) => Ok(
                    SessionView {
                        output: match buffer {
                            Some(b) => self.output + b,
                            None => self.output,
                        },
                        since: now,
                        ..self
                    },
                ),
                Err(e) => Err(e),
            }
        } else if p.header == terminal_packet::KEEP_ALIVE {
            Ok(SessionView { waiting: false, ..self })
        } else {
            Ok(self)
        }
    }

    /// The end of a session with an error.
    pub open spec fn failed(self, e: SessionErrorView) -> (SessionView, SessionActionView) {
        (self.at(Phase::Over), SessionActionView::Fail(e))
    }

    /// Looks for the server's answer, or gives up.
    pub open spec fn awaiting(self, now: int) -> (SessionView, SessionActionView) {
        if now < self.since + RESPONSE_TIMEOUT_MS {
            (self.at(Phase::Response), SessionActionView::Read)
        } else {
            self.failed(SessionErrorView::Timeout)
        }
    }

    /// What a session does when it is told what came of its last action. What it
    /// does not wait for changes nothing, and it asks to be ended.
    pub open spec fn step(self, event: SessionEventView, now: int) -> (
        SessionView,
        SessionActionView,
    ) {
        match (self.phase, event) {
            (Phase::Start, SessionEventView::Done) => (
                self.at(Phase::InitialWrite),
                SessionActionView::Write(initial_packet(self.jumphost)),
            ),
            (Phase::InitialWrite, SessionEventView::Wrote(taken)) => if taken {
                SessionView { since: now, ..self }.awaiting(now)
            } else {
                self.failed(SessionErrorView::InitialNotSent)
            },
            (Phase::Response, SessionEventView::Read(None)) => (
                self.at(Phase::ResponsePause),
                SessionActionView::Pause(RESPONSE_POLL_MS),
            ),
            (Phase::ResponsePause, SessionEventView::Done) => self.awaiting(now),
            (Phase::Response, SessionEventView::Read(Some(p))) => match initial_answer(p) {
                Err(e) => self.failed(e),
                Ok(_) => if self.has_console {
                    (self.at(Phase::OpenConsole), SessionActionView::OpenConsole)
                } else {
                    self.opened(now)
                },
            },
            (Phase::OpenConsole, SessionEventView::Done) => self.opened(now),
            (Phase::CommandWrite, SessionEventView::Wrote(_)) => self.announcing(now),
            (Phase::Announce, SessionEventView::Done) => self.first_round(now),
            (
                Phase::Status,
                SessionEventView::Status { shutting_down, interrupted, has_socket },
            ) => if shutting_down || interrupted {
                (self.at(Phase::Over), SessionActionView::Close)
            } else if has_socket {
                (self.at(Phase::Drain), SessionActionView::Read)
            } else {
                SessionView { waiting: false, ..self }.local_half()
            },
            (Phase::Drain, SessionEventView::Read(Some(p))) => match self.with_packet(p, now) {
                Ok(s) => (s, SessionActionView::Read),
                Err(e) => self.failed(SessionErrorView::Decode(e)),
            },
            (Phase::Drain, SessionEventView::Read(None)) => if self.output.len() > 0 {
                (
                    SessionView { output: Seq::empty(), ..self }.at(Phase::Show),
                    SessionActionView::Show(self.output),
                )
            } else {
                self.keepalive(now)
            },
            (Phase::Show, SessionEventView::Done) => self.keepalive(now),
            (Phase::KeepaliveWrite, SessionEventView::Wrote(_)) => SessionView {
                waiting: true,
                ..self
            }.local_half(),
            (Phase::Reconnect, SessionEventView::Done) => SessionView {
                waiting: false,
                ..self
            }.local_half(),
            (Phase::Input, SessionEventView::Input(Some(b))) => (
                self.at(Phase::InputWrite),
                SessionActionView::Write(input_packet(b)),
            ),
            (Phase::Input, SessionEventView::Input(None)) => (
                self.at(Phase::Size),
                SessionActionView::QuerySize,
            ),
            (Phase::Input, SessionEventView::InputFailed) => (
                self.at(Phase::Over),
                SessionActionView::Close,
            ),
            (Phase::InputWrite, SessionEventView::Wrote(_)) => (
                SessionView { since: now, ..self }.at(Phase::Size),
                SessionActionView::QuerySize,
            ),
            (Phase::Size, SessionEventView::Size(info)) => if info == self.last_info {
                self.next_round()
            } else {
                (
                    SessionView { last_info: info, ..self }.at(Phase::SizeWrite),
                    SessionActionView::Write(size_packet(info)),
                )
            },
            (Phase::SizeWrite, SessionEventView::Wrote(_)) => self.next_round(),
            (Phase::Socket, SessionEventView::Socket(alive)) => (
                self.at(Phase::Pause),
                SessionActionView::Pause(
                    if alive {
                        ONLINE_PAUSE_MS
                    } else {
                        OFFLINE_PAUSE_MS
                    },
                ),
            ),
            (Phase::Pause, SessionEventView::Done) => self.next_round(),
            _ => (self, SessionActionView::Close),
        }
    }
}

/// A terminal session.
pub struct Session {
    phase: Phase,
    command: Option<String>,
    no_exit: bool,
    jumphost: bool,
    has_console: bool,
    keepalive_ms: u64,
    since: u64,
    waiting: bool,
    last_info: TerminalInfo,
    output: Vec<u8>,
}

impl View for Session {
    type V = SessionView;

    closed spec fn view(&self) -> SessionView {
        SessionView {
            phase: self.phase,
            command: message::opt_view(self.command),
            no_exit: self.no_exit,
            jumphost: self.jumphost,
            has_console: self.has_console,
            keepalive_ms: self.keepalive_ms as int,
            since: self.since as int,
            waiting: self.waiting,
            last_info: self.last_info@,
            output: self.output@,
        }
    }
}

/// The time between two keepalives, which is at least one second and at most five.
pub open spec fn keepalive_interval(secs: u64) -> int {
    if secs < 1 {
        1000
    } else if secs > 5 {
        5000
    } else {
        secs * 1000
    }
}

/// Whether so much time has passed since `since`.
fn elapsed(since: u64, span: u64, now: u64) -> (r: bool)
    ensures
        r == (now >= since + span),
{
    now >= since && now - since >= span
}

impl Session {
    /// A session that has not started.
    pub fn new(opts: ClientOptions) -> (r: Session)
        ensures
            r@ == (SessionView {
                phase: Phase::Start,
                command: message::opt_view(opts.command),
                no_exit: opts.no_exit,
                jumphost: opts.jumphost,
                has_console: !opts.no_terminal,
                keepalive_ms: keepalive_interval(opts.keepalive_secs),
                since: 0,
                waiting: false,
                last_info: TerminalInfo::empty(),
                output: Seq::empty(),
            }),
    {
        let keepalive_ms: u64 = if opts.keepalive_secs < 1 {
            1000
        } else if opts.keepalive_secs > 5 {
            5000
        } else {
            opts.keepalive_secs * 1000
        };
        Session {
            phase: Phase::Start,
            command: opts.command,
            no_exit: opts.no_exit,
            jumphost: opts.jumphost,
            has_console: !opts.no_terminal,
            keepalive_ms,
            since: 0,
            waiting: false,
            last_info: TerminalInfo::default(),
            output: Vec::new(),
        }
    }

    fn next_round(&mut self) -> (r: SessionAction)
        ensures
            (final(self)@, r@) == old(self)@.next_round(),
    {
        self.phase = Phase::Status;
        SessionAction::CheckStatus
    }

    fn first_round(&mut self, now: u64) -> (r: SessionAction)
        ensures
            (final(self)@, r@) == old(self)@.first_round(now as int),
    {
        self.since = now;
        self.next_round()
    }

    fn announcing(&mut self, now: u64) -> (r: SessionAction)
        ensures
            (final(self)@, r@) == old(self)@.announcing(now as int),
    {
        if self.has_console {
            self.first_round(now)
        } else {
            self.phase = Phase::Announce;
            SessionAction::Announce
        }
    }

    fn opened(&mut self, now: u64) -> (r: SessionAction)
        ensures
            (final(self)@, r@) == old(self)@.opened(now as int),
    {
        match &self.command {
            Some(command) => {
                let p = build_command_packet(command.as_str(), self.no_exit);
                self.phase = Phase::CommandWrite;
                SessionAction::Write(p)
            },
            None => self.announcing(now),
        }
    }

    fn local_half(&mut self) -> (r: SessionAction)
        ensures
            (final(self)@, r@) == old(self)@.local_half(),
    {
        if self.has_console {
            self.phase = Phase::Input;
            SessionAction::PollInput(INPUT_POLL_MS)
        } else {
            self.phase = Phase::Socket;
            SessionAction::CheckSocket
        }
    }

    fn keepalive(&mut self, now: u64) -> (r: SessionAction)
        ensures
            (final(self)@, r@) == old(self)@.keepalive(now as int),
    {
        if !elapsed(self.since, self.keepalive_ms, now) {
            return self.local_half();
        }
        self.since = now;
        if self.waiting {
            self.phase = Phase::Reconnect;
            SessionAction::Reconnect
        } else {
            self.phase = Phase::KeepaliveWrite;
            SessionAction::Write(Packet::new(terminal_packet::KEEP_ALIVE, Vec::new()))
        }
    }

    fn failed(&mut self, e: SessionError) -> (r: SessionAction)
        ensures
            (final(self)@, r@) == old(self)@.failed(e@),
    {
        self.phase = Phase::Over;
        SessionAction::Fail(e)
    }

    fn awaiting(&mut self, now: u64) -> (r: SessionAction)
        ensures
            (final(self)@, r@) == old(self)@.awaiting(now as int),
    {
        if elapsed(self.since, RESPONSE_TIMEOUT_MS, now) {
            self.failed(SessionError::Timeout)
        } else {
            self.phase = Phase::Response;
            SessionAction::Read
        }
    }

    fn answered(&mut self, packet: &Packet, now: u64) -> (r: SessionAction)
        ensures
            (final(self)@, r@) == (match initial_answer(packet@) {
                Err(e) => old(self)@.failed(e),
                Ok(_) => if old(self)@.has_console {
                    (old(self)@.at(Phase::OpenConsole), SessionActionView::OpenConsole)
                } else {
                    old(self)@.opened(now as int)
                },
            }),
    {
        match check_initial_response(packet) {
            Err(e) => self.failed(e),
            Ok(_) => {
                if self.has_console {
                    self.phase = Phase::OpenConsole;
                    SessionAction::OpenConsole
                } else {
                    self.opened(now)
                }
            },
        }
    }

    fn take_packet(&mut self, packet: &Packet, now: u64) -> (r: Result<(), ProtoError>)
        ensures
            match r {
                Ok(_) => old(self)@.with_packet(packet@, now as int) == Ok::<
                    SessionView,
                    ProtoError,
                >(final(self)@),
                Err(e) => old(self)@.with_packet(packet@, now as int) == Err::<
                    SessionView,
                    ProtoError,
                >(e) && final(self)@ == old(self)@,
            },
    {
        let header: u8 = packet.header();
        if header == terminal_packet::TERMINAL_BUFFER && self.has_console {
            match TerminalBuffer::decode(packet.payload()) {
                Ok(message) => {
                    match message.buffer {
                        Some(b) => {
                            wire::put_slice(&mut self.output, b.as_slice());
                        },
                        None => {},
                    }
                    self.since = now;
                    Ok(())
                },
                Err(e) => Err(e),
            }
        } else {
            if header == terminal_packet::KEEP_ALIVE {
                self.waiting = false;
            }
            Ok(())
        }
    }

    fn drained(&mut self, now: u64) -> (r: SessionAction)
        ensures
            (final(self)@, r@) == (if old(self)@.output.len() > 0 {
                (
                    SessionView { output: Seq::empty(), ..old(self)@ }.at(Phase::Show),
                    SessionActionView::Show(old(self)@.output),
                )
            } else {
                old(self)@.keepalive(now as int)
            }),
    {
        if self.output.len() > 0 {
            let mut output: Vec<u8> = Vec::new();
            wire::put_slice(&mut output, self.output.as_slice());
            assert(output@ =~= self.output@);
            self.output.clear();
            self.phase = Phase::Show;
            SessionAction::Show(output)
        } else {
            self.keepalive(now)
        }
    }

    fn resized(&mut self, info: TerminalInfo) -> (r: SessionAction)
        ensures
            (final(self)@, r@) == (if info@ == old(self)@.last_info {
                old(self)@.next_round()
            } else {
                (
                    SessionView { last_info: info@, ..old(self)@ }.at(Phase::SizeWrite),
                    SessionActionView::Write(size_packet(info@)),
                )
            }),
    {
        if same_size(&info, &self.last_info) {
            self.next_round()
        } else {
            let p = Packet::new(terminal_packet::TERMINAL_INFO, info.encode());
            self.last_info = info;
            self.phase = Phase::SizeWrite;
            SessionAction::Write(p)
        }
    }
}

/// Runs a session by one step: takes what came of the last action and what time it
/// is, and gives the next action.
pub fn run_session(session: &mut Session, event: SessionEvent, now: u64) -> (r: SessionAction)
    ensures
        (final(session)@, r@) == old(session)@.step(event@, now as int),
{
    match (session.phase, event) {
        (Phase::Start, SessionEvent::Done) => {
            session.phase = Phase::InitialWrite;
            SessionAction::Write(build_initial_packet(session.jumphost))
        },
        (Phase::InitialWrite, SessionEvent::Wrote(taken)) => {
            if taken {
                session.since = now;
                session.awaiting(now)
            } else {
                session.failed(SessionError::InitialNotSent)
            }
        },
        (Phase::Response, SessionEvent::Read(None)) => {
            session.phase = Phase::ResponsePause;
            SessionAction::Pause(RESPONSE_POLL_MS)
        },
        (Phase::ResponsePause, SessionEvent::Done) => session.awaiting(now),
        (Phase::Response, SessionEvent::Read(Some(p))) => session.answered(&p, now),
        (Phase::OpenConsole, SessionEvent::Done) => session.opened(now),
        (Phase::CommandWrite, SessionEvent::Wrote(_)) => session.announcing(now),
        (Phase::Announce, SessionEvent::Done) => session.first_round(now),
        (Phase::Status, SessionEvent::Status { shutting_down, interrupted, has_socket }) => {
            if shutting_down || interrupted {
                session.phase = Phase::Over;
                SessionAction::Close
            } else if has_socket {
                session.phase = Phase::Drain;
                SessionAction::Read
            } else {
                session.waiting = false;
                session.local_half()
            }
        },
        (Phase::Drain, SessionEvent::Read(Some(p))) => match session.take_packet(&p, now) {
            Ok(_) => SessionAction::Read,
            Err(e) => session.failed(SessionError::Decode(e)),
        },
        (Phase::Drain, SessionEvent::Read(None)) => session.drained(now),
        (Phase::Show, SessionEvent::Done) => session.keepalive(now),
        (Phase::KeepaliveWrite, SessionEvent::Wrote(_)) => {
            session.waiting = true;
            session.local_half()
        },
        (Phase::Reconnect, SessionEvent::Done) => {
            session.waiting = false;
            session.local_half()
        },
        (Phase::Input, SessionEvent::Input(Some(b))) => {
            session.phase = Phase::InputWrite;
            SessionAction::Write(build_input_packet(b))
        },
        (Phase::Input, SessionEvent::Input(None)) => {
            session.phase = Phase::Size;
            SessionAction::QuerySize
        },
        (Phase::Input, SessionEvent::InputFailed) => {
            session.phase = Phase::Over;
            SessionAction::Close
        },
        (Phase::InputWrite, SessionEvent::Wrote(_)) => {
            session.since = now;
            session.phase = Phase::Size;
            SessionAction::QuerySize
        },
        (Phase::Size, SessionEvent::Size(info)) => session.resized(info),
        (Phase::SizeWrite, SessionEvent::Wrote(_)) => session.next_round(),
        (Phase::Socket, SessionEvent::Socket(alive)) => {
            session.phase = Phase::Pause;
            SessionAction::Pause(
                if alive {
                    ONLINE_PAUSE_MS
                } else {
                    OFFLINE_PAUSE_MS
                },
            )
        },
        (Phase::Pause, SessionEvent::Done) => session.next_round(),
        _ => SessionAction::Close,
    }
}

/// What a session was asked for stays the same throughout.
#[verifier::rlimit(20)]
pub proof fn settings_stay(s: SessionView, event: SessionEventView, now: int)
    ensures
        ({
            let after = s.step(event, now).0;
            &&& after.command == s.command
            &&& after.no_exit == s.no_exit
            &&& after.jumphost == s.jumphost
            &&& after.has_console == s.has_console
            &&& after.keepalive_ms == s.keepalive_ms
        }),
{
}

/// Once the time has run out at the end of a round's reading, a keepalive is written;
/// where the last one has not been answered, the connection is opened again instead.
pub proof fn silence_ends_in_a_reconnect(s: SessionView, now: int)
    requires
        s.phase == Phase::Drain && s.output.len() == 0 || s.phase == Phase::Show,
        now >= s.since + s.keepalive_ms,
    ensures
        ({
            let event = if s.phase == Phase::Show {
                SessionEventView::Done
            } else {
                SessionEventView::Read(None)
            };
            let (after, action) = s.step(event, now);
            &&& after.since == now
            &&& if s.waiting {
                action == SessionActionView::Reconnect
            } else {
                &&& action == SessionActionView::Write(keepalive_packet())
                &&& forall|taken: bool, later: int|
                    (#[trigger] after.step(SessionEventView::Wrote(taken), later)).0.waiting
            }
        }),
{
}

/// A keepalive stays unanswered until a keepalive comes back, the connection is opened
/// again, or there is no socket.
pub proof fn only_an_answer_ends_the_waiting(s: SessionView, event: SessionEventView, now: int)
    requires
        s.waiting,
        !s.step(event, now).0.waiting,
    ensures
        ({
            ||| s.phase == Phase::Drain && (event matches SessionEventView::Read(Some(p))
                && p.header == terminal_packet::KEEP_ALIVE)
            ||| s.phase == Phase::Reconnect && event == SessionEventView::Done
            ||| s.phase == Phase::Status && (event matches SessionEventView::Status {
                has_socket,
                ..
            } && !has_socket)
        }),
{
}

/// The terminal output that an event brings to a session with a console.
pub open spec fn output_in(s: SessionView, event: SessionEventView) -> Seq<u8> {
    match event {
        SessionEventView::Read(Some(p)) if s.phase == Phase::Drain && s.has_console && p.header
            == terminal_packet::TERMINAL_BUFFER => {
            match message::decoding::<TerminalBuffer>(p.payload) {
                Ok(TerminalBufferView { buffer: Some(b) }) => b,
                _ => Seq::empty(),
            }
        },
        _ => Seq::empty(),
    }
}

/// No terminal output is lost, doubled or put out of order: each step keeps what is
/// still to be shown and adds what has come, until all of it is shown at once.
pub proof fn output_is_shown_in_order(s: SessionView, event: SessionEventView, now: int)
    ensures
        ({
            let (after, action) = s.step(event, now);
            match action {
                SessionActionView::Show(b) => b == s.output + output_in(s, event)
                    && after.output.len() == 0,
                _ => after.output == s.output + output_in(s, event),
            }
        }),
{
    let (after, action) = s.step(event, now);
    assert(s.output + Seq::<u8>::empty() =~= s.output);
    match action {
        SessionActionView::Show(b) => {
            assert(b =~= s.output + output_in(s, event));
        },
        _ => {
            assert(after.output =~= s.output + output_in(s, event));
        },
    }
}

/// What is typed, what the window measures and what the session is to be reach the
/// server as they are. Lengths must fit in 64 bits, as those of all messages in memory
/// do.
pub proof fn the_server_reads_what_is_sent(
    bytes: Seq<u8>,
    info: TerminalInfoView,
    jumphost: bool,
)
    requires
        input_packet(bytes).payload.len() <= u64::MAX,
        size_packet(info).payload.len() <= u64::MAX,
        initial_packet(jumphost).payload.len() <= u64::MAX,
    ensures
        message::decoding::<TerminalBuffer>(input_packet(bytes).payload) == Ok::<
            TerminalBufferView,
            ProtoError,
        >(TerminalBufferView { buffer: Some(bytes) }),
        message::decoding::<TerminalInfo>(size_packet(info).payload) == Ok::<
            TerminalInfoView,
            ProtoError,
        >(info),
        message::decoding::<InitialPayload>(initial_packet(jumphost).payload) matches Ok(payload)
            && (payload.jumphost == Some(true) <==> jumphost),
{
    TerminalBuffer::round_trip(TerminalBufferView { buffer: Some(bytes) });
    TerminalInfo::round_trip(info);
    InitialPayload::round_trip(
        InitialPayloadView {
            jumphost: if jumphost {
                Some(true)
            } else {
                None
            },
            reverse_tunnels: Seq::empty(),
            environment_variables: Seq::empty(),
        },
    );
}

/// The time between two keepalives is at least one second and at most five.
pub proof fn keepalive_interval_is_bounded(secs: u64)
    ensures
        1000 <= keepalive_interval(secs) <= 5000,
        1 <= secs <= 5 ==> keepalive_interval(secs) == secs * 1000,
        secs == 0 ==> keepalive_interval(secs) == 1000,
        secs > 5 ==> keepalive_interval(secs) == 5000,
{
}

/// The types of packets are those of the protocol.
pub proof fn types_of_packets()
    ensures
        terminal_packet::KEEP_ALIVE == 0,
        terminal_packet::TERMINAL_BUFFER == 1,
        terminal_packet::TERMINAL_INFO == 2,
        terminal_packet::PORT_FORWARD_DESTINATION_REQUEST == 5,
        terminal_packet::PORT_FORWARD_DESTINATION_RESPONSE == 6,
        terminal_packet::PORT_FORWARD_DATA == 7,
        terminal_packet::TERMINAL_USER_INFO == 8,
        terminal_packet::TERMINAL_INIT == 9,
        terminal_packet::JUMPHOST_INIT == 10,
        et_packet::INITIAL_RESPONSE == 252,
        et_packet::INITIAL_PAYLOAD == 253,
        et_packet::HEARTBEAT == 254,
{
}

/// Whether an action writes a packet in the clear that has the type and the payload.
pub open spec fn writes(action: SessionActionView, header: u8, payload: Seq<u8>) -> bool {
    &&& action matches SessionActionView::Write(p)
    &&& !p.encrypted
    &&& p.header == header
    &&& p.payload == payload
}

/// Whether an action sends terminal input: a packet of type 1, with the bytes in field 1 of
/// its payload.
pub open spec fn types(action: SessionActionView, b: Seq<u8>) -> bool {
    writes(action, 1, seq![0x0au8] + wire::varint(b.len()) + b)
}

/// No typed input is lost: all of it is sent, whatever it is, and the server reads it as it
/// was typed. Then the time to the next keepalive starts anew.
pub proof fn typed_input_is_sent(s: SessionView, b: Seq<u8>, now: int, taken: bool, later: int)
    requires
        s.phase == Phase::Input,
    ensures
        ({
            let (after, action) = s.step(SessionEventView::Input(Some(b)), now);
            &&& types(action, b)
            &&& (seq![0x0au8] + wire::varint(b.len()) + b).len() <= u64::MAX ==> (
            action matches SessionActionView::Write(p) && message::decoding::<TerminalBuffer>(
                p.payload,
            ) == Ok::<TerminalBufferView, ProtoError>(TerminalBufferView { buffer: Some(b) }))
            &&& after == (SessionView { phase: Phase::InputWrite, ..s })
            &&& after.step(SessionEventView::Wrote(taken), later) == (
                SessionView { phase: Phase::Size, since: later, ..s },
                SessionActionView::QuerySize,
            )
        }),
{
    layout::terminal_buffer_on_the_wire(TerminalBufferView { buffer: Some(b) });
}

/// Without input the round goes on; where the console fails the session ends.
pub proof fn rounds_go_on_without_input(s: SessionView, now: int)
    requires
        s.phase == Phase::Input,
    ensures
        s.step(SessionEventView::Input(None), now) == (
            SessionView { phase: Phase::Size, ..s },
            SessionActionView::QuerySize,
        ),
        s.step(SessionEventView::InputFailed, now) == (
            SessionView { phase: Phase::Over, ..s },
            SessionActionView::Close,
        ),
{
}

/// A new size of the window is sent, and remembered; the same size is not sent again.
/// Then the next round starts.
pub proof fn a_new_size_is_sent(
    s: SessionView,
    info: TerminalInfoView,
    now: int,
    taken: bool,
    later: int,
)
    requires
        s.phase == Phase::Size,
    ensures
        info == s.last_info ==> s.step(SessionEventView::Size(info), now) == (
            SessionView { phase: Phase::Status, ..s },
            SessionActionView::CheckStatus,
        ),
        info != s.last_info ==> {
            let (after, action) = s.step(SessionEventView::Size(info), now);
            &&& writes(action, 2, message::encoding::<TerminalInfo>(info))
            &&& after == (SessionView { phase: Phase::SizeWrite, last_info: info, ..s })
            &&& after.step(SessionEventView::Wrote(taken), later) == (
                SessionView { phase: Phase::Status, last_info: info, ..s },
                SessionActionView::CheckStatus,
            )
        },
{
}

/// A session starts with the payload. Where that is not taken it fails; else the server
/// has three seconds to answer, and is asked every 20 milliseconds.
pub proof fn a_session_starts_with_the_payload(s: SessionView, now: int, later: int)
    ensures
        s.phase == Phase::Start ==> {
            let (after, action) = s.step(SessionEventView::Done, now);
            &&& after == (SessionView { phase: Phase::InitialWrite, ..s })
            &&& writes(
                action,
                253,
                if s.jumphost {
                    seq![0x08u8, 1]
                } else {
                    Seq::empty()
                },
            )
        },
        s.phase == Phase::InitialWrite ==> s.step(SessionEventView::Wrote(false), now) == (
            SessionView { phase: Phase::Over, ..s },
            SessionActionView::Fail(SessionErrorView::InitialNotSent),
        ),
        s.phase == Phase::InitialWrite ==> s.step(SessionEventView::Wrote(true), now) == (
            SessionView { phase: Phase::Response, since: now, ..s },
            SessionActionView::Read,
        ),
        s.phase == Phase::Response ==> s.step(SessionEventView::Read(None), now) == (
            SessionView { phase: Phase::ResponsePause, ..s },
            SessionActionView::Pause(20),
        ),
        s.phase == Phase::ResponsePause && now < s.since + 3000 ==> s.step(
            SessionEventView::Done,
            now,
        ) == (SessionView { phase: Phase::Response, ..s }, SessionActionView::Read),
        s.phase == Phase::ResponsePause && now >= s.since + 3000 ==> s.step(
            SessionEventView::Done,
            now,
        ) == (
            SessionView { phase: Phase::Over, ..s },
            SessionActionView::Fail(SessionErrorView::Timeout),
        ),
{
    let v = InitialPayloadView {
        jumphost: if s.jumphost {
            Some(true)
        } else {
            None
        },
        reverse_tunnels: Seq::empty(),
        environment_variables: Seq::empty(),
    };
    layout::initial_payload_on_the_wire(
        v,
        crate::proto::initial::PortForwardSourceRequestView {
            source: None,
            destination: None,
            environment_variable: None,
        },
        Seq::empty(),
        Seq::empty(),
    );
}

/// A session goes on only with an answer of type 252 that brings no error.
pub proof fn a_session_needs_a_good_answer(s: SessionView, p: PacketView, now: int)
    requires
        s.phase == Phase::Response,
    ensures
        ({
            let (after, action) = s.step(SessionEventView::Read(Some(p)), now);
            &&& p.header != 252 ==> action == SessionActionView::Fail(
                SessionErrorView::UnexpectedHeader(p.header),
            )
            &&& p.header == 252 ==> match message::decoding::<InitialResponse>(p.payload) {
                Err(e) => action == SessionActionView::Fail(SessionErrorView::Decode(e)),
                Ok(answer) => {
                    &&& answer.error matches Some(e) ==> (e.len() > 0 ==> action
                        == SessionActionView::Fail(SessionErrorView::Rejected(e)))
                    &&& answer.error is None || answer.error->Some_0.len() == 0 ==> {
                        &&& action !is Fail
                        &&& action !is Close
                        &&& s.has_console ==> after == (SessionView {
                            phase: Phase::OpenConsole,
                            ..s
                        }) && action == SessionActionView::OpenConsole
                    }
                },
            }
            &&& action is Fail ==> after == (SessionView { phase: Phase::Over, ..s })
        }),
{
}

/// Once the answer is good and the console open, a command is typed, if there is one, with
/// the end of the shell behind it unless the session is to stay. Without a console the
/// user is told that the session runs. Then the rounds start, and with them the time to
/// the first keepalive.
pub proof fn a_session_opens_with_the_command(
    s: SessionView,
    answer: PacketView,
    now: int,
    taken: bool,
    later: int,
)
    requires
        s.phase == Phase::OpenConsole && s.has_console || s.phase == Phase::Response
            && !s.has_console && answer.header == 252 && (message::decoding::<InitialResponse>(
            answer.payload,
        ) matches Ok(said) && (said.error matches Some(e) ==> e.len() == 0)),
    ensures
        ({
            let event = if s.phase == Phase::OpenConsole {
                SessionEventView::Done
            } else {
                SessionEventView::Read(Some(answer))
            };
            let (after, action) = s.step(event, now);
            &&& s.command matches Some(command) ==> {
                &&& types(
                    action,
                    encode_utf8(
                        command + (if s.no_exit {
                            seq!['\n']
                        } else {
                            seq![';', ' ', 'e', 'x', 'i', 't', '\n']
                        }),
                    ),
                )
                &&& after == (SessionView { phase: Phase::CommandWrite, ..s })
                &&& s.has_console ==> after.step(SessionEventView::Wrote(taken), later) == (
                    SessionView { phase: Phase::Status, since: later, ..s },
                    SessionActionView::CheckStatus,
                )
                &&& !s.has_console ==> after.step(SessionEventView::Wrote(taken), later) == (
                    SessionView { phase: Phase::Announce, ..s },
                    SessionActionView::Announce,
                )
            }
            &&& s.command is None && s.has_console ==> (after, action) == (
                SessionView { phase: Phase::Status, since: now, ..s },
                SessionActionView::CheckStatus,
            )
            &&& s.command is None && !s.has_console ==> (after, action) == (
                SessionView { phase: Phase::Announce, ..s },
                SessionActionView::Announce,
            )
            &&& SessionView { phase: Phase::Announce, ..s }.step(SessionEventView::Done, later) == (
                SessionView { phase: Phase::Status, since: later, ..s },
                SessionActionView::CheckStatus,
            )
        }),
{
    if let Some(command) = s.command {
        reveal_strlit("\n");
        reveal_strlit("; exit\n");
        assert("\n"@ =~= seq!['\n']);
        assert("; exit\n"@ =~= seq![';', ' ', 'e', 'x', 'i', 't', '\n']);
        layout::terminal_buffer_on_the_wire(
            TerminalBufferView {
                buffer: Some(encode_utf8(command_line(command, s.no_exit))),
            },
        );
    }
}

/// A round starts with the end of the session, where that is due; else with what the server
/// has sent, where there is a socket; else with the local input.
pub proof fn a_round_starts_with_the_network(
    s: SessionView,
    shutting_down: bool,
    interrupted: bool,
    has_socket: bool,
    now: int,
)
    requires
        s.phase == Phase::Status,
    ensures
        ({
            let (after, action) = s.step(
                SessionEventView::Status { shutting_down, interrupted, has_socket },
                now,
            );
            if shutting_down || interrupted {
                after == (SessionView { phase: Phase::Over, ..s }) && action
                    == SessionActionView::Close
            } else if has_socket {
                after == (SessionView { phase: Phase::Drain, ..s }) && action
                    == SessionActionView::Read
            } else if s.has_console {
                after == (SessionView { phase: Phase::Input, waiting: false, ..s }) && action
                    == SessionActionView::PollInput(5)
            } else {
                after == (SessionView { phase: Phase::Socket, waiting: false, ..s }) && action
                    == SessionActionView::CheckSocket
            }
        }),
{
}

/// While the server's packets are read, the next one is read after each. Terminal output is
/// added to what is to be shown, and puts the keepalive off; a keepalive answers the one
/// that was sent. Nothing else changes anything.
pub proof fn packets_of_the_server(s: SessionView, p: PacketView, b: Seq<u8>, now: int)
    requires
        s.phase == Phase::Drain,
    ensures
        ({
            let (after, action) = s.step(SessionEventView::Read(Some(p)), now);
            &&& p.header == 0 ==> after == (SessionView { waiting: false, ..s }) && action
                == SessionActionView::Read
            &&& p.header > 1 || p.header == 1 && !s.has_console ==> after == s && action
                == SessionActionView::Read
            &&& p.header == 1 && s.has_console && p.payload == seq![0x0au8] + wire::varint(b.len())
                + b && p.payload.len() <= u64::MAX ==> after == (SessionView {
                output: s.output + b,
                since: now,
                ..s
            }) && action == SessionActionView::Read
            &&& p.header == 1 && s.has_console ==> match message::decoding::<TerminalBuffer>(
                p.payload,
            ) {
                Ok(TerminalBufferView { buffer: Some(x) }) => after == (SessionView {
                    output: s.output + x,
                    since: now,
                    ..s
                }) && action == SessionActionView::Read,
                Ok(TerminalBufferView { buffer: None }) => after == (SessionView {
                    since: now,
                    ..s
                }) && action == SessionActionView::Read,
                Err(e) => after == (SessionView { phase: Phase::Over, ..s }) && action
                    == SessionActionView::Fail(SessionErrorView::Decode(e)),
            }
        }),
{
    layout::terminal_buffer_on_the_wire(TerminalBufferView { buffer: Some(b) });
}

/// Once all packets are read, what is to be shown is shown, all of it. Then comes a
/// keepalive, where it is time for one: where the last one was answered, a packet of type 0
/// without a payload; else a new connection. Then comes the local input.
pub proof fn the_server_is_kept_alive(s: SessionView, now: int, taken: bool, later: int)
    requires
        s.phase == Phase::Drain || s.phase == Phase::Show,
    ensures
        s.phase == Phase::Drain && s.output.len() > 0 ==> s.step(SessionEventView::Read(None), now)
            == (
            SessionView { phase: Phase::Show, output: Seq::empty(), ..s },
            SessionActionView::Show(s.output),
        ),
        s.phase == Phase::Drain && s.output.len() == 0 || s.phase == Phase::Show ==> {
            let event = if s.phase == Phase::Show {
                SessionEventView::Done
            } else {
                SessionEventView::Read(None)
            };
            let (after, action) = s.step(event, now);
            let (input, poll) = if s.has_console {
                (Phase::Input, SessionActionView::PollInput(5))
            } else {
                (Phase::Socket, SessionActionView::CheckSocket)
            };
            &&& now < s.since + s.keepalive_ms ==> after == (SessionView { phase: input, ..s })
                && action == poll
            &&& now >= s.since + s.keepalive_ms && !s.waiting ==> {
                &&& writes(action, 0, Seq::empty())
                &&& after == (SessionView { phase: Phase::KeepaliveWrite, since: now, ..s })
                &&& after.step(SessionEventView::Wrote(taken), later) == (
                    SessionView { phase: input, since: now, waiting: true, ..s },
                    poll,
                )
            }
            &&& now >= s.since + s.keepalive_ms && s.waiting ==> {
                &&& action == SessionActionView::Reconnect
                &&& after == (SessionView { phase: Phase::Reconnect, since: now, ..s })
                &&& after.step(SessionEventView::Done, later) == (
                    SessionView { phase: input, since: now, waiting: false, ..s },
                    poll,
                )
            }
        },
{
}

/// Without a console, a round ends with a pause: ten milliseconds with a socket, fifty
/// without.
pub proof fn rounds_without_a_console_pause(s: SessionView, alive: bool, now: int)
    ensures
        s.phase == Phase::Socket ==> s.step(SessionEventView::Socket(alive), now) == (
            SessionView { phase: Phase::Pause, ..s },
            SessionActionView::Pause(
                if alive {
                    10
                } else {
                    50
                },
            ),
        ),
        s.phase == Phase::Pause ==> s.step(SessionEventView::Done, now) == (
            SessionView { phase: Phase::Status, ..s },
            SessionActionView::CheckStatus,
        ),
{
}

/// How long a session waits, in milliseconds: for the answer to its payload, between two
/// looks for it, for input, and between two rounds with a connection and without one. The
/// server is kept alive every five seconds unless another number is given.
pub proof fn times_of_a_session()
    ensures
        RESPONSE_TIMEOUT_MS == 3000,
        RESPONSE_POLL_MS == 20,
        INPUT_POLL_MS == 5,
        ONLINE_PAUSE_MS == 10,
        OFFLINE_PAUSE_MS == 50,
        DEFAULT_KEEPALIVE_SECS == 5,
{
}

/// Whether a session in the phase waits for such an event.
pub open spec fn awaited(phase: Phase, event: SessionEventView) -> bool {
    match phase {
        Phase::Start
        | Phase::ResponsePause
        | Phase::OpenConsole
        | Phase::Announce
        | Phase::Show
        | Phase::Reconnect
        | Phase::Pause => event is Done,
        Phase::InitialWrite
        | Phase::CommandWrite
        | Phase::KeepaliveWrite
        | Phase::InputWrite
        | Phase::SizeWrite => event is Wrote,
        Phase::Response | Phase::Drain => event is Read,
        Phase::Status => event is Status,
        Phase::Input => event is Input || event is InputFailed,
        Phase::Size => event is Size,
        Phase::Socket => event is Socket,
        Phase::Over => false,
    }
}

/// What a session does not wait for changes nothing, and the session asks to be ended.
pub proof fn what_is_not_awaited_ends_the_session(
    s: SessionView,
    event: SessionEventView,
    now: int,
)
    requires
        !awaited(s.phase, event),
    ensures
        s.step(event, now) == (s, SessionActionView::Close),
{
}

} // verus!

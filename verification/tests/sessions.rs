use eternal_terminal::client::{
    check_initial_response, run_session, ClientOptions, Session, SessionAction, SessionError,
    SessionEvent,
};
use eternal_terminal::packet::Packet;
use eternal_terminal::proto::{
    et_packet, terminal_packet, InitialPayload, InitialResponse, ProtoError, ProtoMessage,
    TerminalBuffer, TerminalInfo,
};

fn welcome() -> Packet {
    Packet::new(et_packet::INITIAL_RESPONSE, InitialResponse::default().encode())
}

fn output(text: &str) -> Packet {
    let buffer = TerminalBuffer {
        buffer: Some(text.as_bytes().to_vec()),
    };
    Packet::new(terminal_packet::TERMINAL_BUFFER, buffer.encode())
}

fn status(has_socket: bool) -> SessionEvent {
    SessionEvent::Status {
        shutting_down: false,
        interrupted: false,
        has_socket,
    }
}

fn written(action: SessionAction) -> Packet {
    match action {
        SessionAction::Write(p) => p,
        other => panic!("{other:?}"),
    }
}

fn typed(p: &Packet) -> Vec<u8> {
    assert_eq!(p.header(), terminal_packet::TERMINAL_BUFFER);
    TerminalBuffer::decode(p.payload()).unwrap().buffer.unwrap()
}

/// A session with a console, at the start of its first round at time 100.
fn running() -> Session {
    let mut s = Session::new(ClientOptions::default());
    written(run_session(&mut s, SessionEvent::Done, 0));
    assert!(matches!(run_session(&mut s, SessionEvent::Wrote(true), 0), SessionAction::Read));
    assert!(matches!(
        run_session(&mut s, SessionEvent::Read(Some(welcome())), 50),
        SessionAction::OpenConsole
    ));
    assert!(matches!(run_session(&mut s, SessionEvent::Done, 100), SessionAction::CheckStatus));
    s
}

/// A session without a console, at the start of its first round at time 100.
fn running_alone() -> Session {
    let mut s = Session::new(ClientOptions {
        no_terminal: true,
        ..ClientOptions::default()
    });
    written(run_session(&mut s, SessionEvent::Done, 0));
    run_session(&mut s, SessionEvent::Wrote(true), 0);
    assert!(matches!(
        run_session(&mut s, SessionEvent::Read(Some(welcome())), 50),
        SessionAction::Announce
    ));
    assert!(matches!(run_session(&mut s, SessionEvent::Done, 100), SessionAction::CheckStatus));
    s
}

#[test]
fn default_options() {
    let o = ClientOptions::default();
    assert_eq!(o.command, None);
    assert_eq!(o.keepalive_secs, 5);
    assert!(!o.no_exit && !o.jumphost && !o.no_terminal);
}

#[test]
fn the_initial_payload() {
    for jumphost in [false, true] {
        let mut s = Session::new(ClientOptions {
            jumphost,
            ..ClientOptions::default()
        });
        let p = written(run_session(&mut s, SessionEvent::Done, 0));
        assert_eq!(p.header(), et_packet::INITIAL_PAYLOAD);
        let payload = InitialPayload::decode(p.payload()).unwrap();
        assert_eq!(payload.jumphost, if jumphost { Some(true) } else { None });
        assert!(payload.reverse_tunnels.is_empty());
        assert_eq!(payload.environment_variables.len(), 0);
    }
}

#[test]
fn a_payload_that_is_not_sent() {
    let mut s = Session::new(ClientOptions::default());
    run_session(&mut s, SessionEvent::Done, 0);
    assert!(matches!(
        run_session(&mut s, SessionEvent::Wrote(false), 0),
        SessionAction::Fail(SessionError::InitialNotSent)
    ));
}

#[test]
fn answers_to_the_payload() {
    assert!(check_initial_response(&welcome()).is_ok());
    assert!(matches!(
        check_initial_response(&output("x")),
        Err(SessionError::UnexpectedHeader(1))
    ));
    let no = InitialResponse {
        error: Some("no".into()),
    };
    let no = Packet::new(et_packet::INITIAL_RESPONSE, no.encode());
    assert!(matches!(check_initial_response(&no), Err(SessionError::Rejected(why)) if why == "no"));
    let empty = InitialResponse {
        error: Some(String::new()),
    };
    let empty = Packet::new(et_packet::INITIAL_RESPONSE, empty.encode());
    assert!(check_initial_response(&empty).is_ok());
    let bad = Packet::new(et_packet::INITIAL_RESPONSE, vec![0x80]);
    assert!(matches!(
        check_initial_response(&bad),
        Err(SessionError::Decode(ProtoError::Truncated))
    ));
}

#[test]
fn an_answer_that_does_not_come() {
    let mut s = Session::new(ClientOptions::default());
    run_session(&mut s, SessionEvent::Done, 1000);
    run_session(&mut s, SessionEvent::Wrote(true), 1000);
    assert!(matches!(
        run_session(&mut s, SessionEvent::Read(None), 1000),
        SessionAction::Pause(20)
    ));
    assert!(matches!(run_session(&mut s, SessionEvent::Done, 3999), SessionAction::Read));
    run_session(&mut s, SessionEvent::Read(None), 3999);
    assert!(matches!(
        run_session(&mut s, SessionEvent::Done, 4000),
        SessionAction::Fail(SessionError::Timeout)
    ));
}

#[test]
fn commands() {
    for (no_exit, line) in [(false, "htop; exit\n"), (true, "htop\n")] {
        let mut s = Session::new(ClientOptions {
            command: Some("htop".into()),
            no_exit,
            ..ClientOptions::default()
        });
        run_session(&mut s, SessionEvent::Done, 0);
        run_session(&mut s, SessionEvent::Wrote(true), 0);
        run_session(&mut s, SessionEvent::Read(Some(welcome())), 0);
        let p = written(run_session(&mut s, SessionEvent::Done, 0));
        assert_eq!(typed(&p), line.as_bytes());
        assert!(matches!(
            run_session(&mut s, SessionEvent::Wrote(false), 0),
            SessionAction::CheckStatus
        ));
    }
}

#[test]
fn output_is_joined_and_shown() {
    let mut s = running();
    assert!(matches!(run_session(&mut s, status(true), 100), SessionAction::Read));
    for text in ["he", "llo"] {
        let event = SessionEvent::Read(Some(output(text)));
        assert!(matches!(run_session(&mut s, event, 100), SessionAction::Read));
    }
    let none = Packet::new(terminal_packet::TERMINAL_BUFFER, vec![]);
    run_session(&mut s, SessionEvent::Read(Some(none)), 100);
    match run_session(&mut s, SessionEvent::Read(None), 100) {
        SessionAction::Show(b) => assert_eq!(b, b"hello"),
        other => panic!("{other:?}"),
    }
    assert!(matches!(run_session(&mut s, SessionEvent::Done, 100), SessionAction::PollInput(5)));
}

#[test]
fn other_packets_are_ignored() {
    let mut s = running();
    run_session(&mut s, status(true), 100);
    for header in [et_packet::HEARTBEAT, 77] {
        let event = SessionEvent::Read(Some(Packet::new(header, vec![0x80])));
        assert!(matches!(run_session(&mut s, event, 100), SessionAction::Read));
    }
    let bad = Packet::new(terminal_packet::TERMINAL_BUFFER, vec![0x80]);
    assert!(matches!(
        run_session(&mut s, SessionEvent::Read(Some(bad)), 100),
        SessionAction::Fail(SessionError::Decode(ProtoError::Truncated))
    ));
}

#[test]
fn input_and_window_size() {
    let mut s = running();
    assert!(matches!(run_session(&mut s, status(false), 100), SessionAction::PollInput(5)));
    let p = written(run_session(&mut s, SessionEvent::Input(Some(b"ls".to_vec())), 100));
    assert_eq!(typed(&p), b"ls");
    assert!(matches!(
        run_session(&mut s, SessionEvent::Wrote(true), 100),
        SessionAction::QuerySize
    ));
    let size = || TerminalInfo {
        row: Some(24),
        column: Some(80),
        ..TerminalInfo::default()
    };
    let p = written(run_session(&mut s, SessionEvent::Size(size()), 100));
    assert_eq!(p.header(), terminal_packet::TERMINAL_INFO);
    assert_eq!(p.payload(), &size().encode()[..]);
    run_session(&mut s, SessionEvent::Wrote(true), 100);
    run_session(&mut s, status(false), 100);
    assert!(matches!(
        run_session(&mut s, SessionEvent::Input(None), 100),
        SessionAction::QuerySize
    ));
    assert!(matches!(
        run_session(&mut s, SessionEvent::Size(size()), 100),
        SessionAction::CheckStatus
    ));
}

/// One round without any input, up to the keepalive.
fn quiet_round(s: &mut Session, now: u64) -> SessionAction {
    assert!(matches!(run_session(s, status(true), now), SessionAction::Read));
    run_session(s, SessionEvent::Read(None), now)
}

/// The rest of a round of a session without a console.
fn rest_of_round(s: &mut Session, alive: bool, now: u64) -> u64 {
    match run_session(s, SessionEvent::Socket(alive), now) {
        SessionAction::Pause(ms) => {
            assert!(matches!(run_session(s, SessionEvent::Done, now), SessionAction::CheckStatus));
            ms
        }
        other => panic!("{other:?}"),
    }
}

#[test]
fn keepalives() {
    let mut s = running_alone();
    assert!(matches!(quiet_round(&mut s, 5099), SessionAction::CheckSocket));
    assert_eq!(rest_of_round(&mut s, true, 5099), 10);
    let p = written(quiet_round(&mut s, 5100));
    assert_eq!(p.header(), terminal_packet::KEEP_ALIVE);
    assert!(p.payload().is_empty());
    assert!(matches!(
        run_session(&mut s, SessionEvent::Wrote(true), 5100),
        SessionAction::CheckSocket
    ));
    rest_of_round(&mut s, true, 5100);
    assert!(matches!(quiet_round(&mut s, 10_100), SessionAction::Reconnect));
    assert!(matches!(run_session(&mut s, SessionEvent::Done, 10_100), SessionAction::CheckSocket));
    assert_eq!(rest_of_round(&mut s, false, 10_100), 50);
    written(quiet_round(&mut s, 15_100));
}

#[test]
fn answered_keepalives() {
    let mut s = running_alone();
    written(quiet_round(&mut s, 5100));
    run_session(&mut s, SessionEvent::Wrote(true), 5100);
    rest_of_round(&mut s, true, 5100);
    run_session(&mut s, status(true), 10_100);
    let alive = Packet::new(terminal_packet::KEEP_ALIVE, vec![]);
    run_session(&mut s, SessionEvent::Read(Some(alive)), 10_100);
    let p = written(run_session(&mut s, SessionEvent::Read(None), 10_100));
    assert_eq!(p.header(), terminal_packet::KEEP_ALIVE);
}

#[test]
fn a_lost_socket_ends_the_waiting() {
    let mut s = running_alone();
    written(quiet_round(&mut s, 5100));
    run_session(&mut s, SessionEvent::Wrote(true), 5100);
    rest_of_round(&mut s, true, 5100);
    assert!(matches!(run_session(&mut s, status(false), 6000), SessionAction::CheckSocket));
    rest_of_round(&mut s, false, 6000);
    written(quiet_round(&mut s, 10_100));
}

#[test]
fn output_puts_the_keepalive_off() {
    let mut s = running();
    run_session(&mut s, status(true), 5000);
    run_session(&mut s, SessionEvent::Read(Some(output("x"))), 5000);
    run_session(&mut s, SessionEvent::Read(None), 5000);
    assert!(matches!(run_session(&mut s, SessionEvent::Done, 9999), SessionAction::PollInput(5)));
    run_session(&mut s, SessionEvent::Input(None), 9999);
    run_session(&mut s, SessionEvent::Size(TerminalInfo::default()), 9999);
    written(quiet_round(&mut s, 10_000));

    // Without a console there is nothing to show.
    let mut s = running_alone();
    run_session(&mut s, status(true), 5000);
    run_session(&mut s, SessionEvent::Read(Some(output("x"))), 5000);
    written(run_session(&mut s, SessionEvent::Read(None), 5100));
}

#[test]
fn keepalive_intervals_are_bounded() {
    for (secs, ms) in [(0, 1000), (1, 1000), (3, 3000), (5, 5000), (60, 5000)] {
        let mut s = Session::new(ClientOptions {
            keepalive_secs: secs,
            no_terminal: true,
            ..ClientOptions::default()
        });
        run_session(&mut s, SessionEvent::Done, 0);
        run_session(&mut s, SessionEvent::Wrote(true), 0);
        run_session(&mut s, SessionEvent::Read(Some(welcome())), 0);
        run_session(&mut s, SessionEvent::Done, 0);
        assert!(matches!(quiet_round(&mut s, ms - 1), SessionAction::CheckSocket));
        rest_of_round(&mut s, true, ms - 1);
        written(quiet_round(&mut s, ms));
    }
}

#[test]
fn ends_of_a_session() {
    for (shutting_down, interrupted) in [(true, false), (false, true)] {
        let mut s = running();
        let event = SessionEvent::Status {
            shutting_down,
            interrupted,
            has_socket: true,
        };
        assert!(matches!(run_session(&mut s, event, 100), SessionAction::Close));
    }
    let mut s = running();
    run_session(&mut s, status(false), 100);
    assert!(matches!(
        run_session(&mut s, SessionEvent::InputFailed, 100),
        SessionAction::Close
    ));
    let mut s = running();
    assert!(matches!(run_session(&mut s, SessionEvent::Wrote(true), 100), SessionAction::Close));
}

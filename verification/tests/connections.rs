use eternal_terminal::backed::{BackedReader, BackedWriter, ReadStep, RecoverError, WriteStep};
use eternal_terminal::connection::{
    check_connect_response, check_reconnect_response, ping_server, socket_address, tcp_connect,
    ClientConnection, ConnectError, ReadAction, RecoverOutcome, TcpError, WriteAction,
};
use eternal_terminal::crypto::{
    CryptoError, CryptoHandler, CLIENT_SERVER_NONCE_MSB, SERVER_CLIENT_NONCE_MSB,
};
use eternal_terminal::io::IoErrorKind;
use eternal_terminal::packet::Packet;
use eternal_terminal::proto::{CatchupBuffer, ConnectResponse, ConnectStatus, SequenceHeader};

const KEY: &str = "0123456789abcdef0123456789abcdef";

fn answer(status: Option<ConnectStatus>) -> ConnectResponse {
    ConnectResponse {
        status,
        error: Some("why".into()),
    }
}

fn unopened() -> ClientConnection {
    ClientConnection::new("box".into(), 2022, "client".into(), KEY.into())
}

fn opened() -> ClientConnection {
    let mut c = unopened();
    c.connect(&answer(Some(ConnectStatus::NewClient))).unwrap();
    c
}

/// The server's ends of the two streams.
fn server() -> (BackedWriter, BackedReader) {
    let key = KEY.as_bytes();
    (
        BackedWriter::new(CryptoHandler::new(key, SERVER_CLIENT_NONCE_MSB).unwrap()),
        BackedReader::new(CryptoHandler::new(key, CLIENT_SERVER_NONCE_MSB).unwrap()),
    )
}

fn packet(text: &str) -> Packet {
    Packet::new(1, text.as_bytes().to_vec())
}

fn write(c: &mut ClientConnection, text: &str) -> Vec<u8> {
    let p = packet(text);
    assert!(c.can_count(&p));
    match c.write_packet(&p) {
        WriteAction::Send(frame) => {
            assert!(matches!(c.finish_write(true), WriteAction::Finished(true)));
            frame
        }
        other => panic!("{other:?}"),
    }
}

fn serve(w: &mut BackedWriter, text: &str) -> Vec<u8> {
    match w.write(packet(text)) {
        WriteStep::Send(frame) => frame,
        other => panic!("{other:?}"),
    }
}

/// Reads all packets of the client, from what the server has sent.
fn read(c: &mut ClientConnection, mut bytes: &[u8]) -> Vec<String> {
    let mut got = Vec::new();
    let mut action = c.read_packet();
    loop {
        action = match action {
            ReadAction::Packet(p) => {
                got.push(String::from_utf8(p.payload().to_vec()).unwrap());
                c.read_packet()
            }
            ReadAction::Receive(n) => {
                let take = n.min(bytes.len());
                let chunk = bytes[..take].to_vec();
                bytes = &bytes[take..];
                if take == 0 {
                    c.received(Err(IoErrorKind::WouldBlock))
                } else {
                    c.received(Ok(chunk))
                }
            }
            ReadAction::Nothing => return got,
            ReadAction::Reconnect => panic!("broken stream"),
        };
    }
}

/// Reads all packets of the server, from what the client has sent.
fn server_read(r: &mut BackedReader, mut bytes: &[u8]) -> Vec<String> {
    let mut got = Vec::new();
    loop {
        match r.read().unwrap() {
            ReadStep::Packet(p) => got.push(String::from_utf8(p.payload().to_vec()).unwrap()),
            ReadStep::Receive(n) if !bytes.is_empty() => {
                let take = n.min(bytes.len());
                r.received(Ok(bytes[..take].to_vec())).unwrap();
                bytes = &bytes[take..];
            }
            _ => return got,
        }
    }
}

#[test]
fn a_new_connection() {
    let c = unopened();
    assert_eq!(c.id(), "client");
    assert!(!c.has_socket());
    assert!(!c.is_shutting_down());
    assert!(c.wants_reconnect());
    assert_eq!(c.address(), "box:2022");
    let request = c.connect_request();
    assert_eq!(request.client_id, Some("client".to_string()));
    assert_eq!(request.version, Some(6));
}

#[test]
fn nothing_moves_before_it_is_open() {
    let mut c = unopened();
    assert!(matches!(c.read_packet(), ReadAction::Nothing));
    assert!(matches!(c.write_packet(&packet("x")), WriteAction::Wait(100)));
    assert_eq!(c.sequence_header().sequence_number, Some(0));
    let none = c.catchup_for(&SequenceHeader { sequence_number: Some(7) }).unwrap();
    assert!(none.buffer.is_empty());
}

#[test]
fn answers_to_the_first_request() {
    for status in [ConnectStatus::NewClient, ConnectStatus::ReturningClient] {
        assert!(check_connect_response(&answer(Some(status))).is_ok());
        let mut c = unopened();
        c.connect(&answer(Some(status))).unwrap();
        assert!(c.has_socket());
        assert!(!c.wants_reconnect());
    }
    for status in [None, Some(ConnectStatus::InvalidKey), Some(ConnectStatus::MismatchedProtocol)] {
        let mut c = unopened();
        match c.connect(&answer(status)) {
            Err(ConnectError::Refused(s, why)) => {
                assert_eq!(s, status);
                assert_eq!(why, "why");
            }
            other => panic!("{other:?}"),
        }
        assert!(!c.has_socket());
    }
    let silent = ConnectResponse { status: None, error: None };
    match check_connect_response(&silent) {
        Err(ConnectError::Refused(None, why)) => assert_eq!(why, ""),
        other => panic!("{other:?}"),
    }
}

#[test]
fn the_passkey_must_be_a_key() {
    let mut c = ClientConnection::new("box".into(), 1, "client".into(), "short".into());
    assert!(matches!(
        c.connect(&answer(Some(ConnectStatus::NewClient))),
        Err(ConnectError::Crypto(CryptoError::InvalidKeyLength))
    ));
    assert!(!c.has_socket());
}

#[test]
fn answers_to_a_reconnect() {
    let check = |status| check_reconnect_response(&answer(status));
    assert!(matches!(check(Some(ConnectStatus::ReturningClient)), Ok(true)));
    assert!(matches!(check(Some(ConnectStatus::InvalidKey)), Ok(false)));
    assert!(matches!(
        check(Some(ConnectStatus::NewClient)),
        Err(ConnectError::Refused(Some(ConnectStatus::NewClient), _))
    ));
    assert!(matches!(check(None), Err(ConnectError::Refused(None, _))));
}

#[test]
fn packets_go_both_ways() {
    let mut c = opened();
    let (mut out, mut back) = server();
    let frame = write(&mut c, "to the server");
    assert_eq!(server_read(&mut back, &frame), vec!["to the server"]);
    let mut bytes = serve(&mut out, "one");
    bytes.extend(serve(&mut out, "two"));
    assert_eq!(read(&mut c, &bytes), vec!["one", "two"]);
    assert_eq!(c.received_count(), 2);
}

#[test]
fn what_becomes_of_a_packet() {
    let mut c = opened();
    let encrypted = Packet::from_serialized(&[1, 1]).unwrap();
    assert!(matches!(c.write_packet(&encrypted), WriteAction::Reconnect(1)));
    assert!(matches!(c.write_packet(&packet("x")), WriteAction::Send(_)));
    assert!(matches!(c.finish_write(false), WriteAction::Reconnect(1)));
    assert!(c.has_socket());
    assert!(c.close_and_maybe_reconnect());
    assert!(!c.has_socket());
    assert!(matches!(c.write_packet(&packet("y")), WriteAction::Finished(true)));
    let huge = Packet::new(1, vec![0; 70_000_000]);
    assert!(matches!(c.write_packet(&huge), WriteAction::Wait(100)));
    c.begin_shutdown();
    assert!(matches!(c.write_packet(&packet("z")), WriteAction::Finished(false)));
    assert!(!c.close_and_maybe_reconnect());
}

#[test]
fn broken_streams_are_opened_again() {
    let mut c = opened();
    assert!(matches!(c.read_packet(), ReadAction::Receive(4)));
    assert!(matches!(c.received(Err(IoErrorKind::TimedOut)), ReadAction::Nothing));
    assert!(matches!(c.received(Err(IoErrorKind::Interrupted)), ReadAction::Receive(4)));
    assert!(matches!(c.received(Err(IoErrorKind::Other)), ReadAction::Reconnect));
    assert!(matches!(c.received(Ok(vec![])), ReadAction::Reconnect));
    assert!(matches!(c.received(Ok(vec![0, 0, 0, 1])), ReadAction::Receive(1)));
    assert!(matches!(c.received(Ok(vec![0])), ReadAction::Reconnect));
}

#[test]
fn a_session_survives_a_reconnect() {
    let mut c = opened();
    let (mut out, mut back) = server();
    assert_eq!(server_read(&mut back, &write(&mut c, "1")), vec!["1"]);
    let lost = write(&mut c, "2");
    assert!(server_read(&mut back, &lost[..7]).is_empty());
    let mut bytes = serve(&mut out, "a");
    bytes.extend(&serve(&mut out, "b")[..5]);
    assert_eq!(read(&mut c, &bytes), vec!["a"]);

    assert!(c.close_and_maybe_reconnect());
    out.invalidate_socket();
    back.invalidate_socket();
    assert!(matches!(c.write_packet(&packet("3")), WriteAction::Finished(true)));

    let told = c.sequence_header().sequence_number.unwrap();
    assert_eq!(told, 1);
    let heard = SequenceHeader {
        sequence_number: Some(back.sequence_number() as i32),
    };
    let outgoing = c.catchup_for(&heard).unwrap();
    assert_eq!(outgoing.buffer.len(), 2);
    let incoming = out.recover(told as i64).unwrap();
    back.revive(outgoing.buffer);
    out.revive();
    c.revive(CatchupBuffer { buffer: incoming });
    assert!(!c.finish_reconnect(RecoverOutcome::Recovered));
    assert!(c.has_socket());

    assert_eq!(server_read(&mut back, &write(&mut c, "4")), vec!["2", "3", "4"]);
    assert_eq!(read(&mut c, &serve(&mut out, "c")), vec!["b", "c"]);
}

#[test]
fn a_server_that_is_out_of_step() {
    let mut c = opened();
    write(&mut c, "1");
    let at = |n| SequenceHeader { sequence_number: n };
    assert!(matches!(c.catchup_for(&at(Some(0))), Err(RecoverError::SocketAlive)));
    c.close_and_maybe_reconnect();
    assert_eq!(c.catchup_for(&at(None)).unwrap().buffer.len(), 1);
    assert!(matches!(c.catchup_for(&at(Some(2))), Err(RecoverError::PeerAhead)));
    assert!(matches!(c.catchup_for(&at(Some(-5))), Err(RecoverError::PeerTooFarBehind)));
}

#[test]
fn outcomes_of_a_reconnect() {
    let mut c = opened();
    c.close_and_maybe_reconnect();
    assert!(c.finish_reconnect(RecoverOutcome::Failed));
    assert!(c.wants_reconnect());
    assert!(!c.finish_reconnect(RecoverOutcome::SessionEnded));
    assert!(c.is_shutting_down());
    assert!(!c.wants_reconnect());
}

#[test]
fn the_end_of_a_connection() {
    let mut c = opened();
    c.shutdown();
    assert!(c.is_shutting_down());
    assert!(!c.has_socket());
    assert!(matches!(c.read_packet(), ReadAction::Nothing));
    assert!(matches!(c.write_packet(&packet("x")), WriteAction::Finished(false)));
}

#[test]
fn addresses() {
    assert_eq!(socket_address("box", 0), "box:0");
    assert_eq!(socket_address("::1", 65535), "::1:65535");
}

#[test]
fn the_first_address_that_works() {
    let r: Result<&str, TcpError<u8>> =
        tcp_connect("box:1", vec![Err(1), Ok("second"), Err(3), Ok("fourth")]);
    assert!(matches!(r, Ok("second")));
    assert!(ping_server(&r));
    let r: Result<&str, TcpError<u8>> = tcp_connect("box:1", vec![Err(1), Err(2)]);
    assert!(matches!(r, Err(TcpError::Attempt(2))));
    assert!(!ping_server(&r));
    let r: Result<&str, TcpError<u8>> = tcp_connect("box:1", vec![]);
    match r {
        Err(TcpError::Unresolved(address)) => assert_eq!(address, "box:1"),
        other => panic!("{other:?}"),
    }
}

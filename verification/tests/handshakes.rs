use eternal_terminal::backed::{BackedReader, BackedWriter, ReadStep, RecoverError, WriteStep};
use eternal_terminal::connection::{ClientConnection, ConnectError, RecoverOutcome, WriteAction};
use eternal_terminal::crypto::{
    CryptoError, CryptoHandler, CLIENT_SERVER_NONCE_MSB, SERVER_CLIENT_NONCE_MSB,
};
use eternal_terminal::handshake::{
    Handshake, HandshakeAction, HandshakeError, HandshakeEvent,
};
use eternal_terminal::packet::Packet;
use eternal_terminal::proto::framing::ReadProtoError;
use eternal_terminal::proto::{
    read_proto, write_proto, CatchupBuffer, ConnectRequest, ConnectResponse, ConnectStatus,
    ProtoMessage, SequenceHeader,
};

const KEY: &str = "0123456789abcdef0123456789abcdef";

fn client(key: &str) -> ClientConnection {
    ClientConnection::new("box".into(), 2022, "client".into(), key.into())
}

fn answer(status: Option<ConnectStatus>) -> HandshakeEvent {
    HandshakeEvent::Received(write_proto(&ConnectResponse { status, error: None }))
}

fn sent<M: ProtoMessage>(action: HandshakeAction) -> M {
    match action {
        HandshakeAction::Send(bytes) => {
            let (msg, used) = read_proto(&bytes).unwrap();
            assert_eq!(used, bytes.len());
            msg
        }
        other => panic!("{other:?}"),
    }
}

/// A handshake up to the point where it waits for the server's answer.
fn asked(first: bool, c: &mut ClientConnection) -> Handshake {
    let mut h = Handshake::new(first);
    let request: ConnectRequest = sent(h.step(c, HandshakeEvent::Done));
    assert_eq!(request.client_id, Some("client".to_string()));
    assert_eq!(request.version, Some(6));
    assert!(matches!(h.step(c, HandshakeEvent::Done), HandshakeAction::Receive));
    h
}

fn open(c: &mut ClientConnection) {
    let mut h = asked(true, c);
    let action = h.step(c, answer(Some(ConnectStatus::NewClient)));
    assert!(matches!(action, HandshakeAction::MakeReady));
    assert!(!c.has_socket());
    let action = h.step(c, HandshakeEvent::Done);
    assert!(matches!(action, HandshakeAction::Finished(RecoverOutcome::Recovered)));
    assert!(c.has_socket());
}

#[test]
fn a_first_handshake() {
    let mut c = client(KEY);
    open(&mut c);
    assert_eq!(c.received_count(), 0);
}

#[test]
fn a_first_handshake_that_is_refused() {
    for status in [None, Some(ConnectStatus::InvalidKey), Some(ConnectStatus::MismatchedProtocol)] {
        let mut c = client(KEY);
        let mut h = asked(true, &mut c);
        match h.step(&mut c, answer(status)) {
            HandshakeAction::Fail(HandshakeError::Connect(ConnectError::Refused(s, why))) => {
                assert_eq!(s, status);
                assert_eq!(why, "");
            }
            other => panic!("{other:?}"),
        }
        assert!(!c.has_socket());
    }
}

#[test]
fn a_first_handshake_without_a_key() {
    let mut c = client("short");
    let mut h = asked(true, &mut c);
    h.step(&mut c, answer(Some(ConnectStatus::ReturningClient)));
    assert!(matches!(
        h.step(&mut c, HandshakeEvent::Done),
        HandshakeAction::Fail(HandshakeError::Connect(ConnectError::Crypto(
            CryptoError::InvalidKeyLength
        )))
    ));
    assert!(!c.has_socket());
}

#[test]
fn messages_that_cannot_be_read() {
    let mut c = client(KEY);
    let mut h = asked(true, &mut c);
    assert!(matches!(
        h.step(&mut c, HandshakeEvent::Received(vec![0; 3])),
        HandshakeAction::Fail(HandshakeError::Message(ReadProtoError::UnexpectedEof))
    ));
}

#[test]
fn events_out_of_turn() {
    let mut c = client(KEY);
    let mut h = Handshake::new(false);
    assert!(matches!(
        h.step(&mut c, answer(Some(ConnectStatus::ReturningClient))),
        HandshakeAction::Fail(HandshakeError::OutOfTurn)
    ));
}

#[test]
fn a_session_that_the_server_has_ended() {
    let mut c = client(KEY);
    open(&mut c);
    assert!(c.close_and_maybe_reconnect());
    let mut h = asked(false, &mut c);
    let action = h.step(&mut c, answer(Some(ConnectStatus::InvalidKey)));
    assert!(matches!(action, HandshakeAction::Finished(RecoverOutcome::SessionEnded)));
    let mut h = asked(false, &mut c);
    assert!(matches!(
        h.step(&mut c, answer(Some(ConnectStatus::NewClient))),
        HandshakeAction::Fail(HandshakeError::Connect(ConnectError::Refused(
            Some(ConnectStatus::NewClient),
            _
        )))
    ));
}

#[test]
fn a_server_that_claims_too_much() {
    let mut c = client(KEY);
    open(&mut c);
    c.close_and_maybe_reconnect();
    let mut h = asked(false, &mut c);
    h.step(&mut c, answer(Some(ConnectStatus::ReturningClient)));
    h.step(&mut c, HandshakeEvent::Done);
    let ahead = write_proto(&SequenceHeader { sequence_number: Some(1) });
    assert!(matches!(
        h.step(&mut c, HandshakeEvent::Received(ahead)),
        HandshakeAction::Fail(HandshakeError::Recover(RecoverError::PeerAhead))
    ));
}

#[test]
fn a_handshake_that_exchanges_what_was_missed() {
    let mut c = client(KEY);
    open(&mut c);
    let key = KEY.as_bytes();
    let mut out = BackedWriter::new(CryptoHandler::new(key, SERVER_CLIENT_NONCE_MSB).unwrap());
    let mut back = BackedReader::new(CryptoHandler::new(key, CLIENT_SERVER_NONCE_MSB).unwrap());

    // Both sides write a packet that is lost.
    let mine = Packet::new(1, b"mine".to_vec());
    assert!(matches!(c.write_packet(&mine), WriteAction::Send(_)));
    let yours = Packet::new(1, b"yours".to_vec());
    assert!(matches!(out.write(yours), WriteStep::Send(_)));
    c.close_and_maybe_reconnect();
    out.invalidate_socket();
    back.invalidate_socket();

    let mut h = asked(false, &mut c);
    let header: SequenceHeader =
        sent(h.step(&mut c, answer(Some(ConnectStatus::ReturningClient))));
    assert_eq!(header.sequence_number, Some(0));
    assert!(matches!(h.step(&mut c, HandshakeEvent::Done), HandshakeAction::Receive));
    let remote = SequenceHeader {
        sequence_number: Some(back.sequence_number() as i32),
    };
    let event = HandshakeEvent::Received(write_proto(&remote));
    let catchup: CatchupBuffer = sent(h.step(&mut c, event));
    back.revive(catchup.buffer);
    assert!(matches!(h.step(&mut c, HandshakeEvent::Done), HandshakeAction::Receive));
    let missed = CatchupBuffer {
        buffer: out.recover(0).unwrap(),
    };
    let event = HandshakeEvent::Received(write_proto(&missed));
    assert!(matches!(h.step(&mut c, event), HandshakeAction::MakeReady));
    assert_eq!(h.incoming_count(), 1);
    let action = h.step(&mut c, HandshakeEvent::Done);
    assert!(matches!(action, HandshakeAction::Finished(RecoverOutcome::Recovered)));
    assert!(!c.finish_reconnect(RecoverOutcome::Recovered));

    assert!(matches!(back.read(), Ok(ReadStep::Packet(p)) if p.payload() == b"mine"));
    assert_eq!(c.received_count(), 1);
    match c.read_packet() {
        eternal_terminal::connection::ReadAction::Packet(p) => assert_eq!(p.payload(), b"yours"),
        other => panic!("{other:?}"),
    }
}

use crypto_secretbox::aead::Aead;
use crypto_secretbox::{Key, KeyInit, Nonce, XSalsa20Poly1305};

use eternal_terminal::backed::{
    write_all_retry, BackedReader, BackedWriter, ReadError, ReadStep, RecoverError, SendProgress,
    WriteState, WriteStep, DISCONNECT_BUFFER_BYTES,
};
use eternal_terminal::crypto::{
    CryptoError, CryptoHandler, CLIENT_SERVER_NONCE_MSB, SERVER_CLIENT_NONCE_MSB,
};
use eternal_terminal::io::{is_transient, IoErrorKind};
use eternal_terminal::packet::{Packet, PacketError};

const KEY: &[u8; 32] = b"0123456789abcdef0123456789abcdef";

fn handler() -> CryptoHandler {
    CryptoHandler::new(KEY, CLIENT_SERVER_NONCE_MSB).unwrap()
}

/// The ciphertext under the nonce that counts `count`, in the direction of `msb`.
fn direct(count: u8, msb: u8, plaintext: &[u8]) -> Vec<u8> {
    let mut nonce = [0u8; 24];
    nonce[0] = count;
    nonce[23] = msb;
    XSalsa20Poly1305::new(Key::from_slice(KEY))
        .encrypt(Nonce::from_slice(&nonce), plaintext)
        .unwrap()
}

#[test]
fn nonces_count_messages() {
    let mut c = handler();
    assert_eq!(c.encrypt(b"one").unwrap(), direct(1, 0, b"one"));
    assert_eq!(c.encrypt(b"two").unwrap(), direct(2, 0, b"two"));
    let mut s = CryptoHandler::new(KEY, SERVER_CLIENT_NONCE_MSB).unwrap();
    assert_eq!(s.encrypt(b"one").unwrap(), direct(1, 1, b"one"));
}

#[test]
fn nonces_carry() {
    let mut c = handler();
    for _ in 0..256 {
        c.encrypt(b"").unwrap();
    }
    let mut nonce = [0u8; 24];
    nonce[0] = 1;
    nonce[1] = 1;
    let expected = XSalsa20Poly1305::new(Key::from_slice(KEY))
        .encrypt(Nonce::from_slice(&nonce), &b"x"[..])
        .unwrap();
    assert_eq!(c.encrypt(b"x").unwrap(), expected);
}

#[test]
fn ciphertexts_open_in_order_only() {
    let mut out = handler();
    let first = out.encrypt(b"first").unwrap();
    let second = out.encrypt(b"second").unwrap();
    assert_eq!(first.len(), 5 + 16);
    let mut back = handler();
    assert_eq!(back.decrypt(&first).unwrap(), b"first");
    assert_eq!(back.decrypt(&second).unwrap(), b"second");
    let mut wrong = handler();
    assert_eq!(wrong.decrypt(&second), Err(CryptoError::Forged));
}

#[test]
fn keys_have_32_bytes() {
    assert!(matches!(
        CryptoHandler::new(b"short", 0),
        Err(CryptoError::InvalidKeyLength)
    ));
}

#[test]
fn packets_serialize() {
    let p = Packet::new(7, vec![1, 2, 3]);
    assert_eq!(p.header(), 7);
    assert_eq!(p.payload(), &[1, 2, 3]);
    assert_eq!(p.length(), 5);
    assert_eq!(p.serialize(), vec![0, 7, 1, 2, 3]);
    let back = Packet::from_serialized(&p.serialize()).unwrap();
    assert_eq!(back.serialize(), p.serialize());
    assert_eq!(p.clone().serialize(), p.serialize());
    assert_eq!(Packet::from_serialized(&[9, 1]).unwrap().serialize(), vec![1, 1]);
    assert!(matches!(Packet::from_serialized(&[0]), Err(PacketError::TooShort)));
}

#[test]
fn packets_encrypt_and_decrypt() {
    let mut p = Packet::new(3, b"payload".to_vec());
    let mut out = handler();
    assert_eq!(p.decrypt(&mut out), Err(PacketError::NotEncrypted));
    p.encrypt(&mut out).unwrap();
    assert_eq!(p.header(), 3);
    assert_eq!(p.payload(), &direct(1, 0, b"payload")[..]);
    assert_eq!(p.serialize()[0], 1);
    assert_eq!(p.encrypt(&mut out), Err(PacketError::AlreadyEncrypted));
    let mut back = handler();
    p.decrypt(&mut back).unwrap();
    assert_eq!(p.payload(), b"payload");
    let mut q = Packet::from_serialized(&[1, 3, 0, 0]).unwrap();
    assert_eq!(q.decrypt(&mut back), Err(PacketError::Crypto(CryptoError::Forged)));
}

fn sent(w: &mut BackedWriter, payload: &[u8]) -> Vec<u8> {
    let p = Packet::new(1, payload.to_vec());
    assert!(w.can_count(&p));
    match w.write(p) {
        WriteStep::Send(frame) => frame,
        other => panic!("{other:?}"),
    }
}

fn buffered(w: &mut BackedWriter, payload: &[u8]) -> WriteState {
    match w.write(Packet::new(1, payload.to_vec())) {
        WriteStep::Done(state) => state,
        other => panic!("{other:?}"),
    }
}

fn read_all(r: &mut BackedReader, mut bytes: &[u8], chunk: usize) -> Vec<Vec<u8>> {
    let mut got = Vec::new();
    loop {
        match r.read().unwrap() {
            ReadStep::Packet(p) => got.push(p.payload().to_vec()),
            ReadStep::Idle => return got,
            ReadStep::Receive(n) => {
                let take = n.min(chunk).min(bytes.len());
                if take == 0 {
                    assert_eq!(r.received(Err(IoErrorKind::WouldBlock)), Ok(false));
                    return got;
                }
                assert_eq!(r.received(Ok(bytes[..take].to_vec())), Ok(true));
                bytes = &bytes[take..];
            }
        }
    }
}

#[test]
fn frames_have_a_length() {
    let mut w = BackedWriter::new(handler());
    let frame = sent(&mut w, b"hi");
    assert_eq!(&frame[..4], &[0, 0, 0, 20]);
    assert_eq!(&frame[4..6], &[1, 1]);
    assert_eq!(&frame[6..], &direct(1, 0, b"hi")[..]);
    assert_eq!(w.finish_write(true), WriteState::Success);
    assert_eq!(w.finish_write(false), WriteState::WroteWithFailure);
}

#[test]
fn frames_arrive_in_any_chunks() {
    for chunk in [1, 3, 1000] {
        let mut w = BackedWriter::new(handler());
        let mut bytes = sent(&mut w, b"one");
        bytes.extend(sent(&mut w, b""));
        bytes.extend(sent(&mut w, b"three"));
        let mut r = BackedReader::new(handler());
        let got = read_all(&mut r, &bytes, chunk);
        assert_eq!(got, vec![b"one".to_vec(), vec![], b"three".to_vec()]);
        assert_eq!(r.sequence_number(), 3);
    }
}

#[test]
fn a_reader_asks_for_the_rest_of_a_frame() {
    let mut r = BackedReader::new(handler());
    assert!(matches!(r.read(), Ok(ReadStep::Receive(4))));
    assert_eq!(r.received(Ok(vec![0, 0])), Ok(true));
    assert!(matches!(r.read(), Ok(ReadStep::Receive(2))));
    assert_eq!(r.received(Ok(vec![0, 9])), Ok(true));
    assert!(matches!(r.read(), Ok(ReadStep::Receive(9))));
    assert_eq!(r.received(Err(IoErrorKind::TimedOut)), Ok(false));
    assert_eq!(r.received(Err(IoErrorKind::Interrupted)), Ok(true));
    assert_eq!(r.received(Err(IoErrorKind::Other)), Err(ReadError::Io(IoErrorKind::Other)));
    assert_eq!(r.received(Ok(vec![])), Err(ReadError::ConnectionClosed));
    r.invalidate_socket();
    assert!(matches!(r.read(), Ok(ReadStep::Idle)));
}

#[test]
fn a_reader_turns_strange_packets_down() {
    let mut r = BackedReader::new(handler());
    assert_eq!(r.received(Ok(vec![0, 0, 0, 1])), Ok(true));
    assert_eq!(r.received(Ok(vec![7])), Ok(true));
    assert!(matches!(r.read(), Err(ReadError::Packet(PacketError::TooShort))));
    assert_eq!(r.sequence_number(), 0);
}

#[test]
fn nothing_is_recovered_while_connected() {
    let w = BackedWriter::new(handler());
    assert_eq!(w.recover(0), Err(RecoverError::SocketAlive));
}

#[test]
fn recovery_depends_on_what_the_peer_has() {
    let mut w = BackedWriter::new(handler());
    let first = sent(&mut w, b"one");
    let second = sent(&mut w, b"two");
    w.invalidate_socket();
    assert_eq!(w.recover(2), Ok(vec![]));
    assert_eq!(w.recover(1), Ok(vec![second[4..].to_vec()]));
    assert_eq!(w.recover(0), Ok(vec![first[4..].to_vec(), second[4..].to_vec()]));
    assert_eq!(w.recover(3), Err(RecoverError::PeerAhead));
    assert_eq!(w.recover(-1), Err(RecoverError::PeerTooFarBehind));
}

#[test]
fn a_reconnect_loses_nothing() {
    let mut w = BackedWriter::new(handler());
    let mut r = BackedReader::new(handler());
    let mut bytes = sent(&mut w, b"one");
    bytes.extend(&sent(&mut w, b"two")[..9]);
    assert_eq!(read_all(&mut r, &bytes, 5), vec![b"one".to_vec()]);
    w.invalidate_socket();
    r.invalidate_socket();
    assert_eq!(buffered(&mut w, b"three"), WriteState::BufferedOnly);
    let missed = w.recover(r.sequence_number()).unwrap();
    assert_eq!(missed.len(), 2);
    r.revive(missed);
    w.revive();
    assert_eq!(r.sequence_number(), 3);
    let frame = sent(&mut w, b"four");
    assert_eq!(
        read_all(&mut r, &frame, 7),
        vec![b"two".to_vec(), b"three".to_vec(), b"four".to_vec()]
    );
    assert_eq!(r.sequence_number(), 4);
}

#[test]
fn a_disconnected_writer_takes_only_so_much() {
    let mut w = BackedWriter::new(handler());
    w.invalidate_socket();
    let half = vec![0u8; DISCONNECT_BUFFER_BYTES / 2];
    assert_eq!(buffered(&mut w, &half), WriteState::BufferedOnly);
    assert_eq!(buffered(&mut w, &half), WriteState::Skipped);
    w.revive();
    w.invalidate_socket();
    assert_eq!(buffered(&mut w, &half), WriteState::BufferedOnly);
}

#[test]
fn a_connected_writer_drops_the_oldest() {
    let mut w = BackedWriter::new(handler());
    let third = vec![0u8; 30_000_000];
    for _ in 0..3 {
        sent(&mut w, &third);
    }
    w.invalidate_socket();
    assert_eq!(w.recover(0), Err(RecoverError::PeerTooFarBehind));
    assert_eq!(w.recover(1).unwrap().len(), 2);
}

#[test]
fn an_encrypted_packet_is_not_written() {
    let mut w = BackedWriter::new(handler());
    let p = Packet::from_serialized(&[1, 1, 0]).unwrap();
    assert!(matches!(w.write(p), WriteStep::Done(WriteState::WroteWithFailure)));
    w.invalidate_socket();
    assert_eq!(w.recover(0), Ok(vec![]));
}

#[test]
fn sending_goes_on_where_it_stopped() {
    let go = |sent, pause_ms| Ok(SendProgress { sent, pause_ms });
    assert_eq!(write_all_retry(10, 0, Ok(4)), go(4, 0));
    assert_eq!(write_all_retry(10, 4, Ok(6)), go(10, 0));
    assert_eq!(write_all_retry(10, 4, Err(IoErrorKind::WouldBlock)), go(4, 1));
    assert_eq!(write_all_retry(10, 4, Err(IoErrorKind::TimedOut)), go(4, 1));
    assert_eq!(write_all_retry(10, 4, Err(IoErrorKind::Interrupted)), go(4, 0));
    assert_eq!(write_all_retry(10, 4, Ok(0)), Err(IoErrorKind::WriteZero));
    assert_eq!(write_all_retry(10, 4, Err(IoErrorKind::Other)), Err(IoErrorKind::Other));
}

#[test]
fn transient_failures() {
    assert!(is_transient(IoErrorKind::WouldBlock));
    assert!(is_transient(IoErrorKind::TimedOut));
    assert!(!is_transient(IoErrorKind::Interrupted));
    assert!(!is_transient(IoErrorKind::Other));
}

#[test]
fn recoveries_overlap() {
    let mut w = BackedWriter::new(handler());
    for text in [&b"one"[..], b"two", b"three", b"four"] {
        sent(&mut w, text);
    }
    w.finish_write(false);
    assert_eq!(buffered(&mut w, b"five"), WriteState::BufferedOnly);
    let all = w.recover(0).unwrap();
    assert_eq!(all.len(), 5);
    assert!(all.iter().all(|p| p[0] == 1));
    assert_eq!(all[4][2..], direct(5, 0, b"five")[..]);
    for last in 0..=5 {
        assert_eq!(w.recover(last).unwrap(), all[last as usize..]);
    }
}

#[test]
fn a_catchup_is_read_first_and_counted_at_once() {
    let mut w = BackedWriter::new(handler());
    sent(&mut w, b"one");
    sent(&mut w, b"two");
    w.invalidate_socket();
    let mut r = BackedReader::new(handler());
    assert_eq!(r.received(Ok(vec![9, 9])), Ok(true));
    r.revive(w.recover(0).unwrap());
    assert_eq!(r.sequence_number(), 2);
    for text in [&b"one"[..], b"two"] {
        assert!(r.can_read());
        assert!(matches!(r.read(), Ok(ReadStep::Packet(p)) if p.payload() == text));
        assert_eq!(r.sequence_number(), 2);
    }
    assert!(matches!(r.read(), Ok(ReadStep::Receive(4))));
}

#[test]
fn a_frame_survives_pauses_and_leaves_what_follows() {
    let mut w = BackedWriter::new(handler());
    let frame = sent(&mut w, b"payload");
    let mut stream = frame.clone();
    stream.extend(b"next");
    let mut r = BackedReader::new(handler());
    let mut used = 0;
    loop {
        match r.read().unwrap() {
            ReadStep::Receive(n) => {
                assert_eq!(r.sequence_number(), 0);
                assert_eq!(r.received(Err(IoErrorKind::WouldBlock)), Ok(false));
                assert_eq!(r.received(Err(IoErrorKind::Interrupted)), Ok(true));
                let take = n.min(3);
                assert_eq!(r.received(Ok(stream[used..used + take].to_vec())), Ok(true));
                used += take;
            }
            ReadStep::Packet(p) => {
                assert_eq!(p.payload(), b"payload");
                break;
            }
            ReadStep::Idle => panic!("no socket"),
        }
    }
    assert_eq!(used, frame.len());
    assert_eq!(r.sequence_number(), 1);
}

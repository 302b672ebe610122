use eternal_terminal::byte_order::ByteOrder;
use eternal_terminal::io::IoErrorKind;
use eternal_terminal::proto::framing::{
    proto_length, proto_length_in, read_proto_in, write_proto_in, ReadProtoError,
};
use eternal_terminal::proto::{
    read_proto, write_proto, CatchupBuffer, ConnectRequest, ConnectResponse, ConnectStatus,
    EnvironmentVariables, InitialPayload, InitialResponse, PortForwardSourceRequest, ProtoError,
    ProtoMessage, SequenceHeader, SocketEndpoint, TerminalBuffer, TerminalInfo, PROTOCOL_VERSION,
};

#[test]
fn connect_request_roundtrip() {
    let msg = ConnectRequest {
        client_id: Some("XXXabcdefghijkl".into()),
        version: Some(6),
    };
    let bytes = msg.encode();
    let decoded = ConnectRequest::decode(&bytes).unwrap();
    assert_eq!(decoded.client_id, msg.client_id);
    assert_eq!(decoded.version, msg.version);
}

#[test]
fn terminal_buffer_roundtrip() {
    let msg = TerminalBuffer {
        buffer: Some(b"hello".to_vec()),
    };
    let decoded = TerminalBuffer::decode(&msg.encode()).unwrap();
    assert_eq!(decoded.buffer, msg.buffer);
}

#[test]
fn connect_request_bytes() {
    let msg = ConnectRequest {
        client_id: Some("ab".into()),
        version: Some(PROTOCOL_VERSION),
    };
    assert_eq!(msg.encode(), vec![0x0a, 2, b'a', b'b', 0x10, 6]);
    assert!(ConnectRequest::default().encode().is_empty());
}

#[test]
fn negative_numbers_take_ten_bytes() {
    let msg = SequenceHeader {
        sequence_number: Some(-1),
    };
    let bytes = msg.encode();
    assert_eq!(
        bytes,
        vec![0x08, 0xff, 0xff, 0xff, 0xff, 0xff, 0xff, 0xff, 0xff, 0xff, 0x01]
    );
    let decoded = SequenceHeader::decode(&bytes).unwrap();
    assert_eq!(decoded.sequence_number, Some(-1));
}

#[test]
fn long_lengths_take_more_bytes() {
    let msg = TerminalBuffer {
        buffer: Some(vec![7; 300]),
    };
    let bytes = msg.encode();
    assert_eq!(&bytes[..3], &[0x0a, 0xac, 0x02]);
    assert_eq!(bytes.len(), 303);
    assert_eq!(TerminalBuffer::decode(&bytes).unwrap().buffer, msg.buffer);
}

#[test]
fn status_numbers() {
    for (n, s) in [
        (1, ConnectStatus::NewClient),
        (2, ConnectStatus::ReturningClient),
        (3, ConnectStatus::InvalidKey),
        (4, ConnectStatus::MismatchedProtocol),
    ] {
        assert_eq!(ConnectStatus::from_i32(n), Some(s));
        assert_eq!(s.to_i32(), n);
    }
    assert_eq!(ConnectStatus::from_i32(0), None);
    assert_eq!(ConnectStatus::from_i32(5), None);
}

#[test]
fn connect_response_roundtrip() {
    let msg = ConnectResponse {
        status: Some(ConnectStatus::InvalidKey),
        error: Some("no such client".into()),
    };
    let decoded = ConnectResponse::decode(&msg.encode()).unwrap();
    assert_eq!(decoded.status, Some(ConnectStatus::InvalidKey));
    assert_eq!(decoded.error, Some("no such client".to_string()));
}

#[test]
fn unknown_status_is_none() {
    let decoded = ConnectResponse::decode(&[0x08, 9]).unwrap();
    assert_eq!(decoded.status, None);
}

#[test]
fn later_fields_replace_earlier_ones() {
    let decoded = ConnectRequest::decode(&[0x0a, 1, b'a', 0x0a, 1, b'b']).unwrap();
    assert_eq!(decoded.client_id, Some("b".to_string()));
}

#[test]
fn text_that_is_not_utf8_is_dropped() {
    let decoded = ConnectRequest::decode(&[0x0a, 1, 0xff]).unwrap();
    assert_eq!(decoded.client_id, None);
    let decoded = ConnectRequest::decode(&[0x0a, 2, 0xc3, 0xa9]).unwrap();
    assert_eq!(decoded.client_id, Some("\u{e9}".to_string()));
}

#[test]
fn unknown_fields_are_skipped() {
    let bytes = [
        0x79, 1, 2, 3, 4, 5, 6, 7, 8, // fixed 64
        0x7d, 1, 2, 3, 4, // fixed 32
        0x08, 5,
    ];
    assert_eq!(
        SequenceHeader::decode(&bytes).unwrap().sequence_number,
        Some(5)
    );
}

#[test]
fn decoding_errors() {
    assert!(matches!(
        SequenceHeader::decode(&[0x80]),
        Err(ProtoError::Truncated)
    ));
    assert!(matches!(
        SequenceHeader::decode(&[0x80; 10]),
        Err(ProtoError::InvalidVarint)
    ));
    assert!(matches!(
        SequenceHeader::decode(&[0x0b]),
        Err(ProtoError::InvalidWireType)
    ));
    assert!(matches!(
        SequenceHeader::decode(&[0x0a, 5, 1]),
        Err(ProtoError::Io(IoErrorKind::UnexpectedEof))
    ));
}

#[test]
fn catchup_keeps_the_order() {
    let msg = CatchupBuffer {
        buffer: vec![vec![1, 2], vec![], vec![3]],
    };
    assert_eq!(msg.encode(), vec![0x0a, 2, 1, 2, 0x0a, 0, 0x0a, 1, 3]);
    assert_eq!(CatchupBuffer::decode(&msg.encode()).unwrap().buffer, msg.buffer);
}

#[test]
fn terminal_info_roundtrip() {
    let msg = TerminalInfo {
        id: Some("t".into()),
        row: Some(24),
        column: Some(80),
        width: None,
        height: Some(-3),
    };
    let decoded = TerminalInfo::decode(&msg.encode()).unwrap();
    assert_eq!(decoded, msg);
    assert_ne!(decoded, TerminalInfo::default());
    assert_eq!(decoded.id, msg.id);
    assert_eq!(decoded.row, msg.row);
    assert_eq!(decoded.column, msg.column);
    assert_eq!(decoded.width, msg.width);
    assert_eq!(decoded.height, msg.height);
}

#[test]
fn initial_payload_roundtrip() {
    let mut variables = EnvironmentVariables::new();
    variables.insert("LANG".into(), "C".into());
    variables.insert("HOME".into(), "/root".into());
    variables.insert("LANG".into(), "de".into());
    assert_eq!(variables.len(), 2);
    let msg = InitialPayload {
        jumphost: Some(true),
        reverse_tunnels: vec![PortForwardSourceRequest {
            source: Some(SocketEndpoint {
                name: Some("localhost".into()),
                port: Some(8080),
            }),
            destination: None,
            environment_variable: Some("SOCK".into()),
        }],
        environment_variables: variables,
    };
    let decoded = InitialPayload::decode(&msg.encode()).unwrap();
    assert_eq!(decoded.jumphost, Some(true));
    assert_eq!(decoded.reverse_tunnels.len(), 1);
    let source = decoded.reverse_tunnels[0].source.as_ref().unwrap();
    assert_eq!(source.name, Some("localhost".to_string()));
    assert_eq!(source.port, Some(8080));
    assert!(decoded.reverse_tunnels[0].destination.is_none());
    assert_eq!(decoded.reverse_tunnels[0].environment_variable, Some("SOCK".to_string()));
    assert_eq!(decoded.environment_variables.len(), 2);
    assert_eq!(decoded.environment_variables.get("LANG").map(|s| s.to_string()), Some("de".to_string()));
    assert_eq!(decoded.environment_variables.get("HOME").map(|s| s.to_string()), Some("/root".to_string()));
    assert!(decoded.environment_variables.get("TERM").is_none());
}

#[test]
fn jumphost_is_written_only_when_set() {
    let mut msg = InitialPayload::default();
    assert!(msg.encode().is_empty());
    msg.jumphost = Some(false);
    assert!(msg.encode().is_empty());
    msg.jumphost = Some(true);
    assert_eq!(msg.encode(), vec![0x08, 1]);
}

#[test]
fn initial_response_roundtrip() {
    let msg = InitialResponse {
        error: Some("denied".into()),
    };
    assert_eq!(InitialResponse::decode(&msg.encode()).unwrap().error, msg.error);
}

#[test]
fn framing_in_either_order() {
    let msg = SequenceHeader {
        sequence_number: Some(5),
    };
    assert_eq!(
        write_proto_in(ByteOrder::Little, &msg),
        vec![2, 0, 0, 0, 0, 0, 0, 0, 8, 5]
    );
    assert_eq!(
        write_proto_in(ByteOrder::Big, &msg),
        vec![0, 0, 0, 0, 0, 0, 0, 2, 8, 5]
    );
    for order in [ByteOrder::Little, ByteOrder::Big] {
        let mut bytes = write_proto_in(order, &msg);
        bytes.push(99);
        let (decoded, used): (SequenceHeader, usize) = read_proto_in(order, &bytes).unwrap();
        assert_eq!(decoded.sequence_number, Some(5));
        assert_eq!(used, 10);
    }
}

#[test]
fn framing_follows_the_host() {
    let msg = SequenceHeader {
        sequence_number: Some(5),
    };
    let bytes = write_proto(&msg);
    assert_eq!(&bytes[..8], &2i64.to_ne_bytes());
    assert_eq!(proto_length(&bytes[..8]), Ok(2));
    let (decoded, used): (SequenceHeader, usize) = read_proto(&bytes).unwrap();
    assert_eq!(decoded.sequence_number, Some(5));
    assert_eq!(used, 10);
}

#[test]
fn framing_errors() {
    let short: Result<(SequenceHeader, usize), ReadProtoError> = read_proto(&[1, 2, 3]);
    assert!(matches!(short, Err(ReadProtoError::UnexpectedEof)));
    let cut: Result<(SequenceHeader, usize), ReadProtoError> = read_proto(&3i64.to_ne_bytes());
    assert!(matches!(cut, Err(ReadProtoError::UnexpectedEof)));
    let negative: Result<(SequenceHeader, usize), ReadProtoError> =
        read_proto(&(-1i64).to_ne_bytes());
    assert!(matches!(negative, Err(ReadProtoError::InvalidLength(-1))));
    let long: Result<(SequenceHeader, usize), ReadProtoError> =
        read_proto(&134_217_729i64.to_ne_bytes());
    assert!(matches!(long, Err(ReadProtoError::InvalidLength(134_217_729))));
    let mut bad = 1i64.to_ne_bytes().to_vec();
    bad.push(0x0b);
    let bad: Result<(SequenceHeader, usize), ReadProtoError> = read_proto(&bad);
    assert!(matches!(bad, Err(ReadProtoError::Decode(ProtoError::InvalidWireType))));
    let empty: Result<(SequenceHeader, usize), ReadProtoError> = read_proto(&[0; 8]);
    let (empty, used) = empty.unwrap();
    assert_eq!(empty.sequence_number, None);
    assert_eq!(used, 8);
    assert_eq!(proto_length_in(ByteOrder::Big, &[0, 0, 0, 0, 8, 0, 0, 0]), Ok(134_217_728));
}

#[test]
fn variables_are_cloned() {
    let mut variables = EnvironmentVariables::new();
    variables.insert("A".into(), "1".into());
    let copy = variables.clone();
    variables.insert("A".into(), "2".into());
    assert_eq!(copy.get("A"), Some("1"));
    assert_eq!(variables.get("A"), Some("2"));
    assert_eq!(copy.entry(0), ("A", "1"));
}

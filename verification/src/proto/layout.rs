//! What the messages look like on the wire, byte by byte, and what the bytes mean to
//! whoever reads them.

use vstd::prelude::*;
use vstd::utf8::*;

use crate::io::IoErrorKind;

use super::handshake::{
    CatchupBufferView, ConnectRequestView, ConnectResponseView, SequenceHeaderView,
};
use super::initial;
use super::initial::{
    InitialPayloadView, InitialResponseView, MapEntry, MapEntryView, PortForwardSourceRequestView,
    SocketEndpointView,
};
use super::message;
use super::message::MessageSpec;
use super::terminal::{TerminalBufferView, TerminalInfoView};
use super::wire;
use super::wire::{ProtoError, WireField};
use super::{
    CatchupBuffer, ConnectRequest, ConnectResponse, ConnectStatus, InitialPayload, InitialResponse,
    PortForwardSourceRequest, ProtoMessage, SequenceHeader, SocketEndpoint, TerminalBuffer,
    TerminalInfo,
};

verus! {

/// A byte string behind its tag and its length.
pub open spec fn bytes_on_wire(tag: u8, b: Seq<u8>) -> Seq<u8> {
    seq![tag] + wire::varint(b.len()) + b
}

/// A text behind its tag and its length.
pub open spec fn text_on_wire(tag: u8, t: Seq<char>) -> Seq<u8> {
    bytes_on_wire(tag, encode_utf8(t))
}

/// A signed number behind its tag: a negative one is written as the 64-bit number that
/// has the same bits.
pub open spec fn number_on_wire(tag: u8, v: i32) -> Seq<u8> {
    seq![tag] + wire::varint(
        if v >= 0 {
            v as nat
        } else {
            (v + 0x1_0000_0000_0000_0000) as nat
        },
    )
}

/// What is on the wire for something that may be missing.
pub open spec fn if_present<T>(o: Option<T>, f: spec_fn(T) -> Seq<u8>) -> Seq<u8> {
    match o {
        Some(t) => f(t),
        None => Seq::empty(),
    }
}

/// A number takes a byte for each seven bits, the lowest first; all bytes but the last
/// have 128 added.
pub proof fn varint_bytes(v: nat)
    ensures
        v < 128 ==> wire::varint(v) == seq![v as u8],
        v >= 128 ==> wire::varint(v) == seq![(128 + v % 128) as u8] + wire::varint(v / 128),
{
}

/// The number that some bytes stand for, seven bits each, the lowest first.
pub open spec fn base_128(s: Seq<u8>) -> nat
    decreases s.len(),
{
    if s.len() == 0 {
        0
    } else {
        s[0] as nat % 128 + 128 * base_128(s.skip(1))
    }
}

/// Any bytes of which the last is the first one below 128 are read as a number, whether
/// they are the shortest for it or not, and whatever follows them. There may be ten of
/// them; of the number the low 64 bits count.
pub proof fn varints_are_read(s: Seq<u8>, rest: Seq<u8>)
    requires
        0 < s.len() <= 10,
        forall|i: int| 0 <= i < s.len() - 1 ==> #[trigger] s[i] >= 128,
        s.last() < 128,
    ensures
        wire::varint_at_front(s + rest) == Ok::<(u64, nat), ProtoError>(
            ((base_128(s) % 0x1_0000_0000_0000_0000) as u64, s.len()),
        ),
{
    lemma_scan(s, rest, 10);
}

proof fn lemma_scan(s: Seq<u8>, rest: Seq<u8>, limit: nat)
    requires
        0 < s.len() <= limit,
        forall|i: int| 0 <= i < s.len() - 1 ==> #[trigger] s[i] >= 128,
        s.last() < 128,
    ensures
        wire::scan_varint(s + rest, limit) == Ok::<(nat, nat), ProtoError>(
            (base_128(s), s.len()),
        ),
    decreases s.len(),
{
    let all = s + rest;
    assert(all[0] == s[0]);
    if s.len() == 1 {
        assert(s.skip(1) =~= Seq::empty());
        assert(base_128(s.skip(1)) == 0);
    } else {
        let tail = s.skip(1);
        assert forall|i: int| 0 <= i < tail.len() - 1 implies #[trigger] tail[i] >= 128 by {
            assert(tail[i] == s[i + 1]);
        }
        lemma_scan(tail, rest, (limit - 1) as nat);
        assert(all.skip(1) =~= tail + rest);
    }
}

/// Where the bytes of a number break off, or go on past the tenth, there is no number.
pub proof fn broken_varints_are_refused(s: Seq<u8>, rest: Seq<u8>)
    requires
        s.len() <= 10,
        forall|i: int| 0 <= i < s.len() ==> #[trigger] s[i] >= 128,
    ensures
        s.len() < 10 ==> wire::varint_at_front(s) == Err::<(u64, nat), ProtoError>(
            ProtoError::Truncated,
        ),
        s.len() == 10 ==> wire::varint_at_front(s + rest) == Err::<(u64, nat), ProtoError>(
            ProtoError::InvalidVarint,
        ),
{
    if s.len() == 10 {
        lemma_broken(s, rest, 10);
    } else {
        lemma_broken(s, Seq::empty(), 10);
        assert(s + Seq::<u8>::empty() =~= s);
    }
}

proof fn lemma_broken(s: Seq<u8>, rest: Seq<u8>, limit: nat)
    requires
        s.len() <= limit,
        s.len() < limit ==> rest.len() == 0,
        forall|i: int| 0 <= i < s.len() ==> #[trigger] s[i] >= 128,
    ensures
        wire::scan_varint(s + rest, limit) == Err::<(nat, nat), ProtoError>(
            if s.len() < limit {
                ProtoError::Truncated
            } else {
                ProtoError::InvalidVarint
            },
        ),
    decreases s.len(),
{
    if s.len() > 0 {
        let tail = s.skip(1);
        assert((s + rest)[0] == s[0]);
        assert forall|i: int| 0 <= i < tail.len() implies #[trigger] tail[i] >= 128 by {
            assert(tail[i] == s[i + 1]);
        }
        lemma_broken(tail, rest, (limit - 1) as nat);
        assert((s + rest).skip(1) =~= tail + rest);
    }
}

proof fn lemma_scan_extends(s: Seq<u8>, t: Seq<u8>, limit: nat)
    requires
        wire::scan_varint(s, limit) is Ok,
    ensures
        wire::scan_varint(s + t, limit) == wire::scan_varint(s, limit),
        wire::scan_varint(s, limit)->Ok_0.1 <= s.len(),
    decreases limit,
{
    assert((s + t)[0] == s[0]);
    if s[0] >= 128 {
        assert((s + t).skip(1) =~= s.skip(1) + t);
        lemma_scan_extends(s.skip(1), t, (limit - 1) as nat);
    }
}

proof fn lemma_front_extends(s: Seq<u8>, t: Seq<u8>)
    requires
        wire::field_at_front(s) is Ok,
    ensures
        wire::field_at_front(s + t) == wire::field_at_front(s),
{
    lemma_scan_extends(s, t, 10);
    let n = wire::varint_at_front(s)->Ok_0.1;
    let body = s.skip(n as int);
    assert((s + t).skip(n as int) =~= body + t);
    let wire_type = wire::varint_at_front(s)->Ok_0.0 % 8;
    if wire_type == 0 {
        lemma_scan_extends(body, t, 10);
    } else if wire_type == 1 {
        assert((body + t).take(8) =~= body.take(8));
    } else if wire_type == 2 {
        lemma_scan_extends(body, t, 10);
        let (len, m) = wire::varint_at_front(body)->Ok_0;
        assert((body + t).skip(m as int) =~= body.skip(m as int) + t);
        assert((body.skip(m as int) + t).take(len as int) =~= body.skip(m as int).take(
            len as int,
        ));
    } else if wire_type == 5 {
        assert((body + t).take(4) =~= body.take(4));
    }
}

proof fn lemma_fields_extend(s: Seq<u8>, f: WireField)
    requires
        wire::fields_of(s) is Ok,
        wire::writable(f),
    ensures
        wire::fields_of(s + wire::encode_field(f)) == Ok::<Seq<WireField>, ProtoError>(
            wire::fields_of(s)->Ok_0.push(f),
        ),
    decreases s.len(),
{
    let t = wire::encode_field(f);
    if s.len() == 0 {
        wire::fields_round_trip(seq![f]);
        message::lemma_encode_one(f);
        assert(s + t =~= t);
        assert(wire::fields_of(s)->Ok_0.push(f) =~= seq![f]);
    } else {
        let (g, n) = wire::field_at_front(s)->Ok_0;
        wire::lemma_field_len(s);
        lemma_front_extends(s, t);
        assert((s + t).skip(n as int) =~= s.skip(n as int) + t);
        lemma_fields_extend(s.skip(n as int), f);
        let rest = wire::fields_of(s.skip(n as int))->Ok_0;
        assert(seq![g] + rest.push(f) =~= (seq![g] + rest).push(f));
    }
}

/// What one more field does to a message that has been read.
proof fn lemma_decoding_extends<M: MessageSpec>(b: Seq<u8>, f: WireField)
    requires
        message::decoding::<M>(b) is Ok,
        wire::writable(f),
    ensures
        message::decoding::<M>(b + wire::encode_field(f)) == M::apply(
            message::decoding::<M>(b)->Ok_0,
            f,
        ),
{
    lemma_fields_extend(b, f);
    message::lemma_collect_push::<M>(wire::fields_of(b)->Ok_0, f);
}

proof fn lemma_number_field(number: u32, tag: u8, v: i32)
    requires
        tag == number * 8,
        number < 16,
    ensures
        wire::encode_field(wire::int32_field(number, v)) == number_on_wire(tag, v),
        wire::writable(wire::int32_field(number, v)),
        wire::int32_of(wire::int32_field(number, v)) == Some(v),
{
    wire::field_values(number, Seq::empty(), Seq::empty(), v, false);
    assert(v < 0 ==> (v as u64) == v + 0x1_0000_0000_0000_0000) by (bit_vector);
    assert(wire::varint((number * 8 + 0u32) as nat) =~= seq![tag]);
    assert(wire::encode_field(wire::int32_field(number, v)) =~= number_on_wire(tag, v));
}

proof fn lemma_bytes_field(number: u32, tag: u8, b: Seq<u8>)
    requires
        tag == number * 8 + 2,
        number < 15,
    ensures
        wire::encode_field(wire::bytes_field(number, b)) == bytes_on_wire(tag, b),
        b.len() <= u64::MAX ==> wire::writable(wire::bytes_field(number, b)),
        wire::bytes_of(wire::bytes_field(number, b)) == Some(b),
{
    assert(wire::varint((number * 8 + 2u32) as nat) =~= seq![tag]);
    assert(wire::encode_field(wire::bytes_field(number, b)) =~= bytes_on_wire(tag, b));
}

proof fn lemma_text_field(number: u32, tag: u8, t: Seq<char>)
    requires
        tag == number * 8 + 2,
        number < 15,
    ensures
        wire::encode_field(wire::string_field(number, t)) == text_on_wire(tag, t),
        encode_utf8(t).len() <= u64::MAX ==> wire::writable(wire::string_field(number, t)),
        wire::text_of(wire::string_field(number, t)) == Some(t),
{
    lemma_bytes_field(number, tag, encode_utf8(t));
    wire::field_values(number, t, Seq::empty(), 0, false);
}

proof fn lemma_optional_number(number: u32, tag: u8, o: Option<i32>)
    requires
        tag == number * 8,
        number < 16,
    ensures
        wire::encode_fields(message::optional_int32(number, o)) == if_present(
            o,
            |v: i32| number_on_wire(tag, v),
        ),
{
    if let Some(v) = o {
        lemma_number_field(number, tag, v);
        message::lemma_encode_one(wire::int32_field(number, v));
    }
}

proof fn lemma_optional_text(number: u32, tag: u8, o: Option<Seq<char>>)
    requires
        tag == number * 8 + 2,
        number < 15,
    ensures
        wire::encode_fields(message::optional_string(number, o)) == if_present(
            o,
            |t: Seq<char>| text_on_wire(tag, t),
        ),
{
    if let Some(t) = o {
        lemma_text_field(number, tag, t);
        message::lemma_encode_one(wire::string_field(number, t));
    }
}

/// A request holds the client's id in field 1 and the version in field 2, and reads
/// back as it was.
pub proof fn connect_request_on_the_wire(v: ConnectRequestView)
    ensures
        message::encoding::<ConnectRequest>(v) == if_present(
            v.client_id,
            |t: Seq<char>| text_on_wire(0x0a, t),
        ) + if_present(v.version, |n: i32| number_on_wire(0x10, n)),
        message::encoding::<ConnectRequest>(v).len() <= u64::MAX ==> message::decoding::<
            ConnectRequest,
        >(message::encoding::<ConnectRequest>(v)) == Ok::<ConnectRequestView, ProtoError>(v),
{
    let a = message::optional_string(1, v.client_id);
    let b = message::optional_int32(2, v.version);
    message::lemma_encode_concat(a, b);
    lemma_optional_text(1, 0x0a, v.client_id);
    lemma_optional_number(2, 0x10, v.version);
    if message::encoding::<ConnectRequest>(v).len() <= u64::MAX {
        ConnectRequest::round_trip(v);
    }
}

/// An answer holds the status in field 1, as 1 for a new client, 2 for a returning one, 3
/// for an invalid key and 4 for another protocol, and the error in field 2. It reads
/// back as it was.
pub proof fn connect_response_on_the_wire(v: ConnectResponseView)
    ensures
        message::encoding::<ConnectResponse>(v) == if_present(
            v.status,
            |s: ConnectStatus|
                seq![
                    0x08u8,
                    match s {
                        ConnectStatus::NewClient => 1u8,
                        ConnectStatus::ReturningClient => 2u8,
                        ConnectStatus::InvalidKey => 3u8,
                        ConnectStatus::MismatchedProtocol => 4u8,
                    },
                ],
        ) + if_present(v.error, |t: Seq<char>| text_on_wire(0x12, t)),
        message::encoding::<ConnectResponse>(v).len() <= u64::MAX ==> message::decoding::<
            ConnectResponse,
        >(message::encoding::<ConnectResponse>(v)) == Ok::<ConnectResponseView, ProtoError>(v),
{
    let status = super::handshake::optional_status(v.status);
    let a = message::optional_int32(1, status);
    let b = message::optional_string(2, v.error);
    message::lemma_encode_concat(a, b);
    lemma_optional_number(1, 0x08, status);
    lemma_optional_text(2, 0x12, v.error);
    if let Some(s) = v.status {
        let n = super::handshake::status_number(s);
        assert(wire::varint(n as nat) =~= seq![n as u8]);
        assert(number_on_wire(0x08, n) =~= seq![0x08u8, n as u8]);
    }
    if message::encoding::<ConnectResponse>(v).len() <= u64::MAX {
        ConnectResponse::round_trip(v);
    }
}

/// A sequence header holds the number in field 1, and reads back as it was.
pub proof fn sequence_header_on_the_wire(v: SequenceHeaderView)
    ensures
        message::encoding::<SequenceHeader>(v) == if_present(
            v.sequence_number,
            |n: i32| number_on_wire(0x08, n),
        ),
        message::decoding::<SequenceHeader>(message::encoding::<SequenceHeader>(v)) == Ok::<
            SequenceHeaderView,
            ProtoError,
        >(v),
{
    lemma_optional_number(1, 0x08, v.sequence_number);
    if let Some(n) = v.sequence_number {
        wire::varint_round_trip(
            if n >= 0 {
                n as u64
            } else {
                (n + 0x1_0000_0000_0000_0000) as u64
            },
            Seq::empty(),
        );
    }
    SequenceHeader::round_trip(v);
}

/// A catchup holds each packet in a field 1 of its own, in order, and reads back as it
/// was.
pub proof fn catchup_on_the_wire(v: CatchupBufferView, b: Seq<u8>)
    ensures
        message::encoding::<CatchupBuffer>(CatchupBufferView { buffer: Seq::empty() })
            == Seq::<u8>::empty(),
        message::encoding::<CatchupBuffer>(CatchupBufferView { buffer: v.buffer.push(b) })
            == message::encoding::<CatchupBuffer>(v) + bytes_on_wire(0x0a, b),
        message::encoding::<CatchupBuffer>(v).len() <= u64::MAX ==> message::decoding::<
            CatchupBuffer,
        >(message::encoding::<CatchupBuffer>(v)) == Ok::<CatchupBufferView, ProtoError>(v),
{
    let fields = message::repeated_bytes(1, v.buffer);
    let longer = message::repeated_bytes(1, v.buffer.push(b));
    let f = wire::bytes_field(1, b);
    lemma_bytes_field(1, 0x0a, b);
    assert(message::repeated_bytes(1, Seq::empty()) =~= Seq::empty());
    assert(longer =~= fields.push(f));
    assert(longer.drop_last() =~= fields);
    if message::encoding::<CatchupBuffer>(v).len() <= u64::MAX {
        CatchupBuffer::round_trip(v);
    }
}

/// A terminal buffer holds the bytes in field 1, and reads back as it was.
pub proof fn terminal_buffer_on_the_wire(v: TerminalBufferView)
    ensures
        message::encoding::<TerminalBuffer>(v) == if_present(
            v.buffer,
            |b: Seq<u8>| bytes_on_wire(0x0a, b),
        ),
        message::encoding::<TerminalBuffer>(v).len() <= u64::MAX ==> message::decoding::<
            TerminalBuffer,
        >(message::encoding::<TerminalBuffer>(v)) == Ok::<TerminalBufferView, ProtoError>(v),
{
    if let Some(b) = v.buffer {
        lemma_bytes_field(1, 0x0a, b);
        message::lemma_encode_one(wire::bytes_field(1, b));
    }
    if message::encoding::<TerminalBuffer>(v).len() <= u64::MAX {
        TerminalBuffer::round_trip(v);
    }
}

/// The size of a window holds the id in field 1, then rows, columns, width and height in
/// fields 2 to 5, and reads back as it was.
pub proof fn terminal_info_on_the_wire(v: TerminalInfoView)
    ensures
        message::encoding::<TerminalInfo>(v) == if_present(
            v.id,
            |t: Seq<char>| text_on_wire(0x0a, t),
        ) + if_present(v.row, |n: i32| number_on_wire(0x10, n)) + if_present(
            v.column,
            |n: i32| number_on_wire(0x18, n),
        ) + if_present(v.width, |n: i32| number_on_wire(0x20, n)) + if_present(
            v.height,
            |n: i32| number_on_wire(0x28, n),
        ),
        message::encoding::<TerminalInfo>(v).len() <= u64::MAX ==> message::decoding::<
            TerminalInfo,
        >(message::encoding::<TerminalInfo>(v)) == Ok::<TerminalInfoView, ProtoError>(v),
{
    let a = message::optional_string(1, v.id);
    let b = message::optional_int32(2, v.row);
    let c = message::optional_int32(3, v.column);
    let d = message::optional_int32(4, v.width);
    let e = message::optional_int32(5, v.height);
    message::lemma_encode_concat(a, b);
    message::lemma_encode_concat(a + b, c);
    message::lemma_encode_concat(a + b + c, d);
    message::lemma_encode_concat(a + b + c + d, e);
    lemma_optional_text(1, 0x0a, v.id);
    lemma_optional_number(2, 0x10, v.row);
    lemma_optional_number(3, 0x18, v.column);
    lemma_optional_number(4, 0x20, v.width);
    lemma_optional_number(5, 0x28, v.height);
    if message::encoding::<TerminalInfo>(v).len() <= u64::MAX {
        TerminalInfo::round_trip(v);
    }
}

/// An endpoint holds the name in field 1 and the port in field 2, and reads back as it
/// was.
pub proof fn socket_endpoint_on_the_wire(v: SocketEndpointView)
    ensures
        message::encoding::<SocketEndpoint>(v) == if_present(
            v.name,
            |t: Seq<char>| text_on_wire(0x0a, t),
        ) + if_present(v.port, |n: i32| number_on_wire(0x10, n)),
        message::encoding::<SocketEndpoint>(v).len() <= u64::MAX ==> message::decoding::<
            SocketEndpoint,
        >(message::encoding::<SocketEndpoint>(v)) == Ok::<SocketEndpointView, ProtoError>(v),
{
    let a = message::optional_string(1, v.name);
    let b = message::optional_int32(2, v.port);
    message::lemma_encode_concat(a, b);
    lemma_optional_text(1, 0x0a, v.name);
    lemma_optional_number(2, 0x10, v.port);
    if message::encoding::<SocketEndpoint>(v).len() <= u64::MAX {
        SocketEndpoint::round_trip(v);
    }
}

/// A tunnel holds its source in field 1, its destination in field 2 and the variable in
/// field 3, and reads back as it was.
pub proof fn tunnel_on_the_wire(v: PortForwardSourceRequestView)
    ensures
        message::encoding::<PortForwardSourceRequest>(v) == if_present(
            v.source,
            |e: SocketEndpointView| bytes_on_wire(0x0a, message::encoding::<SocketEndpoint>(e)),
        ) + if_present(
            v.destination,
            |e: SocketEndpointView| bytes_on_wire(0x12, message::encoding::<SocketEndpoint>(e)),
        ) + if_present(v.environment_variable, |t: Seq<char>| text_on_wire(0x1a, t)),
        message::encoding::<PortForwardSourceRequest>(v).len() <= u64::MAX ==> message::decoding::<
            PortForwardSourceRequest,
        >(message::encoding::<PortForwardSourceRequest>(v)) == Ok::<
            PortForwardSourceRequestView,
            ProtoError,
        >(v),
{
    let a = message::optional_bytes(1, initial::endpoint_bytes(v.source));
    let b = message::optional_bytes(2, initial::endpoint_bytes(v.destination));
    let c = message::optional_string(3, v.environment_variable);
    message::lemma_encode_concat(a, b);
    message::lemma_encode_concat(a + b, c);
    lemma_optional_text(3, 0x1a, v.environment_variable);
    if let Some(e) = v.source {
        let bytes = message::encoding::<SocketEndpoint>(e);
        lemma_bytes_field(1, 0x0a, bytes);
        message::lemma_encode_one(wire::bytes_field(1, bytes));
    }
    if let Some(e) = v.destination {
        let bytes = message::encoding::<SocketEndpoint>(e);
        lemma_bytes_field(2, 0x12, bytes);
        message::lemma_encode_one(wire::bytes_field(2, bytes));
    }
    if message::encoding::<PortForwardSourceRequest>(v).len() <= u64::MAX {
        PortForwardSourceRequest::round_trip(v);
    }
}

/// The answer to an initial payload holds the error in field 1, and reads back as it
/// was.
pub proof fn initial_response_on_the_wire(v: InitialResponseView)
    ensures
        message::encoding::<InitialResponse>(v) == if_present(
            v.error,
            |t: Seq<char>| text_on_wire(0x0a, t),
        ),
        message::encoding::<InitialResponse>(v).len() <= u64::MAX ==> message::decoding::<
            InitialResponse,
        >(message::encoding::<InitialResponse>(v)) == Ok::<InitialResponseView, ProtoError>(v),
{
    lemma_optional_text(1, 0x0a, v.error);
    if message::encoding::<InitialResponse>(v).len() <= u64::MAX {
        InitialResponse::round_trip(v);
    }
}

/// A payload holds the jump host in field 1, and only where it is one; then each tunnel
/// in a field 2, and each variable in a field 3, its name and its value in fields of
/// their own. It reads back as it was, but that a jump host that is denied is not
/// mentioned.
pub proof fn initial_payload_on_the_wire(
    v: InitialPayloadView,
    tunnel: PortForwardSourceRequestView,
    name: Seq<char>,
    value: Seq<char>,
)
    ensures
        v.reverse_tunnels.len() == 0 && v.environment_variables.len() == 0 ==> message::encoding::<
            InitialPayload,
        >(v) == (if v.jumphost == Some(true) {
            seq![0x08u8, 1]
        } else {
            Seq::empty()
        }),
        v.environment_variables.len() == 0 ==> message::encoding::<InitialPayload>(
            InitialPayloadView { reverse_tunnels: v.reverse_tunnels.push(tunnel), ..v },
        ) == message::encoding::<InitialPayload>(v) + bytes_on_wire(
            0x12,
            message::encoding::<PortForwardSourceRequest>(tunnel),
        ),
        message::encoding::<InitialPayload>(
            InitialPayloadView {
                environment_variables: v.environment_variables.push((name, value)),
                ..v
            },
        ) == message::encoding::<InitialPayload>(v) + bytes_on_wire(
            0x1a,
            text_on_wire(0x0a, name) + text_on_wire(0x12, value),
        ),
        super::environment::unique_names(v.environment_variables) && message::encoding::<
            InitialPayload,
        >(v).len() <= u64::MAX ==> message::decoding::<InitialPayload>(
            message::encoding::<InitialPayload>(v),
        ) == Ok::<InitialPayloadView, ProtoError>(
            InitialPayloadView {
                jumphost: if v.jumphost == Some(true) {
                    Some(true)
                } else {
                    None
                },
                ..v
            },
        ),
{
    let a = initial::jumphost_fields(v.jumphost);
    let b = initial::tunnel_fields(v.reverse_tunnels);
    let c = initial::variable_fields(v.environment_variables);
    let all = InitialPayload::fields(v);
    if v.jumphost == Some(true) {
        let f = wire::bool_field(1, true);
        message::lemma_encode_one(f);
        assert(wire::varint((1u32 * 8 + 0u32) as nat) =~= seq![0x08u8]);
        assert(wire::varint(1) =~= seq![1u8]);
        assert(wire::encode_field(f) =~= seq![0x08u8, 1]);
    }
    if b.len() == 0 && c.len() == 0 {
        assert(all =~= a);
    }
    let f = initial::tunnel_field(tunnel);
    lemma_bytes_field(2, 0x12, f.data);
    if c.len() == 0 {
        let more = InitialPayloadView { reverse_tunnels: v.reverse_tunnels.push(tunnel), ..v };
        assert(InitialPayload::fields(more) =~= all.push(f));
        assert(all.push(f).drop_last() =~= all);
    }
    let g = initial::variable_field(name, value);
    let x = wire::string_field(1, name);
    let y = wire::string_field(2, value);
    assert(g.data == text_on_wire(0x0a, name) + text_on_wire(0x12, value)) by {
        lemma_text_field(1, 0x0a, name);
        lemma_text_field(2, 0x12, value);
        message::lemma_encode_concat(seq![x], seq![y]);
        message::lemma_encode_one(x);
        message::lemma_encode_one(y);
    }
    lemma_bytes_field(3, 0x1a, g.data);
    let more = InitialPayloadView {
        environment_variables: v.environment_variables.push((name, value)),
        ..v
    };
    assert(InitialPayload::fields(more) =~= all.push(g));
    assert(all.push(g).drop_last() =~= all);
    if super::environment::unique_names(v.environment_variables) && message::encoding::<
        InitialPayload,
    >(v).len() <= u64::MAX {
        InitialPayload::round_trip(v);
    }
}

/// No bytes are a message of which everything is missing.
pub proof fn no_bytes_are_an_empty_message()
    ensures
        message::decoding::<ConnectRequest>(Seq::empty()) == Ok::<ConnectRequestView, ProtoError>(
            ConnectRequestView { client_id: None, version: None },
        ),
        message::decoding::<ConnectResponse>(Seq::empty()) == Ok::<
            ConnectResponseView,
            ProtoError,
        >(ConnectResponseView { status: None, error: None }),
        message::decoding::<SequenceHeader>(Seq::empty()) == Ok::<SequenceHeaderView, ProtoError>(
            SequenceHeaderView { sequence_number: None },
        ),
        message::decoding::<CatchupBuffer>(Seq::empty()) == Ok::<CatchupBufferView, ProtoError>(
            CatchupBufferView { buffer: Seq::empty() },
        ),
        message::decoding::<TerminalBuffer>(Seq::empty()) == Ok::<TerminalBufferView, ProtoError>(
            TerminalBufferView { buffer: None },
        ),
        message::decoding::<TerminalInfo>(Seq::empty()) == Ok::<TerminalInfoView, ProtoError>(
            TerminalInfoView { id: None, row: None, column: None, width: None, height: None },
        ),
        message::decoding::<SocketEndpoint>(Seq::empty()) == Ok::<SocketEndpointView, ProtoError>(
            SocketEndpointView { name: None, port: None },
        ),
        message::decoding::<PortForwardSourceRequest>(Seq::empty()) == Ok::<
            PortForwardSourceRequestView,
            ProtoError,
        >(
            PortForwardSourceRequestView {
                source: None,
                destination: None,
                environment_variable: None,
            },
        ),
        message::decoding::<InitialPayload>(Seq::empty()) == Ok::<InitialPayloadView, ProtoError>(
            InitialPayloadView {
                jumphost: None,
                reverse_tunnels: Seq::empty(),
                environment_variables: Seq::empty(),
            },
        ),
        message::decoding::<InitialResponse>(Seq::empty()) == Ok::<
            InitialResponseView,
            ProtoError,
        >(InitialResponseView { error: None }),
{
}

/// In a request, a further field replaces what was there, and leaves the rest alone.
pub proof fn request_fields_are_read(b: Seq<u8>, v: ConnectRequestView, t: Seq<char>, n: i32)
    requires
        message::decoding::<ConnectRequest>(b) == Ok::<ConnectRequestView, ProtoError>(v),
        encode_utf8(t).len() <= u64::MAX,
    ensures
        message::decoding::<ConnectRequest>(b + text_on_wire(0x0a, t)) == Ok::<ConnectRequestView, ProtoError>(
            ConnectRequestView { client_id: Some(t), ..v },
        ),
        message::decoding::<ConnectRequest>(b + number_on_wire(0x10, n)) == Ok::<ConnectRequestView, ProtoError>(
            ConnectRequestView { version: Some(n), ..v },
        ),
{
    lemma_text_field(1, 0x0a, t);
    lemma_decoding_extends::<ConnectRequest>(b, wire::string_field(1, t));
    lemma_number_field(2, 0x10, n);
    lemma_decoding_extends::<ConnectRequest>(b, wire::int32_field(2, n));
}

/// In a sequence header, a further number replaces the one that was there.
pub proof fn header_fields_are_read(b: Seq<u8>, v: SequenceHeaderView, n: i32)
    requires
        message::decoding::<SequenceHeader>(b) == Ok::<SequenceHeaderView, ProtoError>(v),
    ensures
        message::decoding::<SequenceHeader>(b + number_on_wire(0x08, n)) == Ok::<SequenceHeaderView, ProtoError>(
            SequenceHeaderView { sequence_number: Some(n) },
        ),
{
    lemma_number_field(1, 0x08, n);
    lemma_decoding_extends::<SequenceHeader>(b, wire::int32_field(1, n));
}

/// In a catchup, each further field is one more packet.
pub proof fn catchup_fields_are_read(b: Seq<u8>, v: CatchupBufferView, x: Seq<u8>)
    requires
        message::decoding::<CatchupBuffer>(b) == Ok::<CatchupBufferView, ProtoError>(v),
        x.len() <= u64::MAX,
    ensures
        message::decoding::<CatchupBuffer>(b + bytes_on_wire(0x0a, x)) == Ok::<CatchupBufferView, ProtoError>(
            CatchupBufferView { buffer: v.buffer.push(x) },
        ),
{
    lemma_bytes_field(1, 0x0a, x);
    lemma_decoding_extends::<CatchupBuffer>(b, wire::bytes_field(1, x));
}

/// In a terminal buffer, further bytes replace those that were there.
pub proof fn buffer_fields_are_read(b: Seq<u8>, v: TerminalBufferView, x: Seq<u8>)
    requires
        message::decoding::<TerminalBuffer>(b) == Ok::<TerminalBufferView, ProtoError>(v),
        x.len() <= u64::MAX,
    ensures
        message::decoding::<TerminalBuffer>(b + bytes_on_wire(0x0a, x)) == Ok::<TerminalBufferView, ProtoError>(
            TerminalBufferView { buffer: Some(x) },
        ),
{
    lemma_bytes_field(1, 0x0a, x);
    lemma_decoding_extends::<TerminalBuffer>(b, wire::bytes_field(1, x));
}

/// In the size of a window, a further field replaces what was there, and leaves the rest
/// alone.
pub proof fn size_fields_are_read(b: Seq<u8>, v: TerminalInfoView, t: Seq<char>, n: i32)
    requires
        message::decoding::<TerminalInfo>(b) == Ok::<TerminalInfoView, ProtoError>(v),
        encode_utf8(t).len() <= u64::MAX,
    ensures
        message::decoding::<TerminalInfo>(b + text_on_wire(0x0a, t)) == Ok::<TerminalInfoView, ProtoError>(
            TerminalInfoView { id: Some(t), ..v },
        ),
        message::decoding::<TerminalInfo>(b + number_on_wire(0x10, n)) == Ok::<TerminalInfoView, ProtoError>(
            TerminalInfoView { row: Some(n), ..v },
        ),
        message::decoding::<TerminalInfo>(b + number_on_wire(0x18, n)) == Ok::<TerminalInfoView, ProtoError>(
            TerminalInfoView { column: Some(n), ..v },
        ),
        message::decoding::<TerminalInfo>(b + number_on_wire(0x20, n)) == Ok::<TerminalInfoView, ProtoError>(
            TerminalInfoView { width: Some(n), ..v },
        ),
        message::decoding::<TerminalInfo>(b + number_on_wire(0x28, n)) == Ok::<TerminalInfoView, ProtoError>(
            TerminalInfoView { height: Some(n), ..v },
        ),
{
    lemma_text_field(1, 0x0a, t);
    lemma_decoding_extends::<TerminalInfo>(b, wire::string_field(1, t));
    lemma_number_field(2, 0x10, n);
    lemma_decoding_extends::<TerminalInfo>(b, wire::int32_field(2, n));
    lemma_number_field(3, 0x18, n);
    lemma_decoding_extends::<TerminalInfo>(b, wire::int32_field(3, n));
    lemma_number_field(4, 0x20, n);
    lemma_decoding_extends::<TerminalInfo>(b, wire::int32_field(4, n));
    lemma_number_field(5, 0x28, n);
    lemma_decoding_extends::<TerminalInfo>(b, wire::int32_field(5, n));
}

/// In an endpoint, a further field replaces what was there, and leaves the rest alone.
pub proof fn endpoint_fields_are_read(b: Seq<u8>, v: SocketEndpointView, t: Seq<char>, n: i32)
    requires
        message::decoding::<SocketEndpoint>(b) == Ok::<SocketEndpointView, ProtoError>(v),
        encode_utf8(t).len() <= u64::MAX,
    ensures
        message::decoding::<SocketEndpoint>(b + text_on_wire(0x0a, t)) == Ok::<SocketEndpointView, ProtoError>(
            SocketEndpointView { name: Some(t), ..v },
        ),
        message::decoding::<SocketEndpoint>(b + number_on_wire(0x10, n)) == Ok::<SocketEndpointView, ProtoError>(
            SocketEndpointView { port: Some(n), ..v },
        ),
{
    lemma_text_field(1, 0x0a, t);
    lemma_decoding_extends::<SocketEndpoint>(b, wire::string_field(1, t));
    lemma_number_field(2, 0x10, n);
    lemma_decoding_extends::<SocketEndpoint>(b, wire::int32_field(2, n));
}

/// In the answer to a payload, a further error replaces the one that was there.
pub proof fn initial_response_fields_are_read(b: Seq<u8>, v: InitialResponseView, t: Seq<char>)
    requires
        message::decoding::<InitialResponse>(b) == Ok::<InitialResponseView, ProtoError>(v),
        encode_utf8(t).len() <= u64::MAX,
    ensures
        message::decoding::<InitialResponse>(b + text_on_wire(0x0a, t)) == Ok::<InitialResponseView, ProtoError>(
            InitialResponseView { error: Some(t) },
        ),
{
    lemma_text_field(1, 0x0a, t);
    lemma_decoding_extends::<InitialResponse>(b, wire::string_field(1, t));
}

/// In an answer, a further field replaces what was there, and leaves the rest alone. A
/// number that is no status means none.
pub proof fn response_fields_are_read(b: Seq<u8>, v: ConnectResponseView, t: Seq<char>, n: i32)
    requires
        message::decoding::<ConnectResponse>(b) == Ok::<ConnectResponseView, ProtoError>(v),
        encode_utf8(t).len() <= u64::MAX,
    ensures
        message::decoding::<ConnectResponse>(b + number_on_wire(0x08, n)) == Ok::<
            ConnectResponseView,
            ProtoError,
        >(
            ConnectResponseView {
                status: if n == 1 {
                    Some(ConnectStatus::NewClient)
                } else if n == 2 {
                    Some(ConnectStatus::ReturningClient)
                } else if n == 3 {
                    Some(ConnectStatus::InvalidKey)
                } else if n == 4 {
                    Some(ConnectStatus::MismatchedProtocol)
                } else {
                    None
                },
                ..v
            },
        ),
        message::decoding::<ConnectResponse>(b + text_on_wire(0x12, t)) == Ok::<
            ConnectResponseView,
            ProtoError,
        >(ConnectResponseView { error: Some(t), ..v }),
{
    lemma_number_field(1, 0x08, n);
    lemma_decoding_extends::<ConnectResponse>(b, wire::int32_field(1, n));
    lemma_text_field(2, 0x12, t);
    lemma_decoding_extends::<ConnectResponse>(b, wire::string_field(2, t));
}

/// In a tunnel, a further field replaces what was there, and leaves the rest alone.
pub proof fn tunnel_fields_are_read(
    b: Seq<u8>,
    v: PortForwardSourceRequestView,
    x: Seq<u8>,
    e: SocketEndpointView,
    t: Seq<char>,
)
    requires
        message::decoding::<PortForwardSourceRequest>(b) == Ok::<
            PortForwardSourceRequestView,
            ProtoError,
        >(v),
        message::decoding::<SocketEndpoint>(x) == Ok::<SocketEndpointView, ProtoError>(e),
        x.len() <= u64::MAX,
        encode_utf8(t).len() <= u64::MAX,
    ensures
        message::decoding::<PortForwardSourceRequest>(b + bytes_on_wire(0x0a, x)) == Ok::<
            PortForwardSourceRequestView,
            ProtoError,
        >(PortForwardSourceRequestView { source: Some(e), ..v }),
        message::decoding::<PortForwardSourceRequest>(b + bytes_on_wire(0x12, x)) == Ok::<
            PortForwardSourceRequestView,
            ProtoError,
        >(PortForwardSourceRequestView { destination: Some(e), ..v }),
        message::decoding::<PortForwardSourceRequest>(b + text_on_wire(0x1a, t)) == Ok::<
            PortForwardSourceRequestView,
            ProtoError,
        >(PortForwardSourceRequestView { environment_variable: Some(t), ..v }),
{
    lemma_bytes_field(1, 0x0a, x);
    lemma_decoding_extends::<PortForwardSourceRequest>(b, wire::bytes_field(1, x));
    lemma_bytes_field(2, 0x12, x);
    lemma_decoding_extends::<PortForwardSourceRequest>(b, wire::bytes_field(2, x));
    lemma_text_field(3, 0x1a, t);
    lemma_decoding_extends::<PortForwardSourceRequest>(b, wire::string_field(3, t));
}

/// In a payload, a further jump host replaces what was there, and a further tunnel comes
/// behind the others.
pub proof fn payload_fields_are_read(
    b: Seq<u8>,
    v: InitialPayloadView,
    n: i32,
    x: Seq<u8>,
    tunnel: PortForwardSourceRequestView,
)
    requires
        message::decoding::<InitialPayload>(b) == Ok::<InitialPayloadView, ProtoError>(v),
        message::decoding::<PortForwardSourceRequest>(x) == Ok::<
            PortForwardSourceRequestView,
            ProtoError,
        >(tunnel),
        x.len() <= u64::MAX,
    ensures
        message::decoding::<InitialPayload>(b + number_on_wire(0x08, n)) == Ok::<
            InitialPayloadView,
            ProtoError,
        >(InitialPayloadView { jumphost: Some(n != 0), ..v }),
        message::decoding::<InitialPayload>(b + bytes_on_wire(0x12, x)) == Ok::<
            InitialPayloadView,
            ProtoError,
        >(InitialPayloadView { reverse_tunnels: v.reverse_tunnels.push(tunnel), ..v }),
{
    lemma_number_field(1, 0x08, n);
    wire::field_values(1, Seq::empty(), Seq::empty(), n, false);
    assert(n != 0 <==> (n as u64) != 0) by (bit_vector);
    lemma_decoding_extends::<InitialPayload>(b, wire::int32_field(1, n));
    lemma_bytes_field(2, 0x12, x);
    lemma_decoding_extends::<InitialPayload>(b, wire::bytes_field(2, x));
}

/// A variable in a payload is set, in place of the value that it had.
pub proof fn variables_are_read(
    b: Seq<u8>,
    v: InitialPayloadView,
    name: Seq<char>,
    value: Seq<char>,
)
    requires
        message::decoding::<InitialPayload>(b) == Ok::<InitialPayloadView, ProtoError>(v),
        super::environment::unique_names(v.environment_variables),
        (text_on_wire(0x0a, name) + text_on_wire(0x12, value)).len() <= u64::MAX,
    ensures
        ({
            let entry = text_on_wire(0x0a, name) + text_on_wire(0x12, value);
            &&& message::decoding::<InitialPayload>(b + bytes_on_wire(0x1a, entry)) matches Ok(after)
            &&& after.jumphost == v.jumphost
            &&& after.reverse_tunnels == v.reverse_tunnels
            &&& super::environment::unique_names(after.environment_variables)
            &&& super::environment::as_map(after.environment_variables)
                == super::environment::as_map(v.environment_variables).insert(name, value)
        }),
{
    let x = wire::string_field(1, name);
    let y = wire::string_field(2, value);
    let entry = MapEntryView { key: Some(name), value: Some(value) };
    let bytes = text_on_wire(0x0a, name) + text_on_wire(0x12, value);
    lemma_text_field(1, 0x0a, name);
    lemma_text_field(2, 0x12, value);
    message::lemma_encode_concat(seq![x], seq![y]);
    message::lemma_encode_one(x);
    message::lemma_encode_one(y);
    assert(MapEntry::fields(entry) =~= seq![x] + seq![y]);
    MapEntry::round_trip(entry);
    lemma_bytes_field(3, 0x1a, bytes);
    lemma_decoding_extends::<InitialPayload>(b, wire::bytes_field(3, bytes));
    super::environment::setting_inserts(v.environment_variables, name, value);
}

proof fn lemma_unknown<M: MessageSpec>(b: Seq<u8>, number: u32, x: Seq<u8>, n: i32)
    requires
        5 < number < 15,
        x.len() <= u64::MAX,
        forall|v: M::V, f: WireField|
            f.number > 5 ==> #[trigger] M::apply(v, f) == Ok::<M::V, ProtoError>(v),
    ensures
        ignored::<M>(b, bytes_on_wire((number * 8 + 2) as u8, x)),
        ignored::<M>(b, number_on_wire((number * 8) as u8, n)),
{
    if message::decoding::<M>(b) is Ok {
        lemma_bytes_field(number, (number * 8 + 2) as u8, x);
        lemma_decoding_extends::<M>(b, wire::bytes_field(number, x));
        lemma_number_field(number, (number * 8) as u8, n);
        lemma_decoding_extends::<M>(b, wire::int32_field(number, n));
    }
}

/// Whether a message that can be read is the same with `field` behind it.
pub open spec fn ignored<M: MessageSpec>(b: Seq<u8>, field: Seq<u8>) -> bool {
    message::decoding::<M>(b) is Ok ==> message::decoding::<M>(b + field) == message::decoding::<M>(
        b,
    )
}

/// A field that no message has changes nothing.
pub proof fn unknown_fields_are_skipped(b: Seq<u8>, number: u32, x: Seq<u8>, n: i32)
    requires
        5 < number < 15,
        x.len() <= u64::MAX,
    ensures
        ignored::<ConnectRequest>(b, bytes_on_wire((number * 8 + 2) as u8, x)),
        ignored::<ConnectRequest>(b, number_on_wire((number * 8) as u8, n)),
        ignored::<ConnectResponse>(b, bytes_on_wire((number * 8 + 2) as u8, x)),
        ignored::<ConnectResponse>(b, number_on_wire((number * 8) as u8, n)),
        ignored::<SequenceHeader>(b, bytes_on_wire((number * 8 + 2) as u8, x)),
        ignored::<SequenceHeader>(b, number_on_wire((number * 8) as u8, n)),
        ignored::<CatchupBuffer>(b, bytes_on_wire((number * 8 + 2) as u8, x)),
        ignored::<CatchupBuffer>(b, number_on_wire((number * 8) as u8, n)),
        ignored::<TerminalBuffer>(b, bytes_on_wire((number * 8 + 2) as u8, x)),
        ignored::<TerminalBuffer>(b, number_on_wire((number * 8) as u8, n)),
        ignored::<TerminalInfo>(b, bytes_on_wire((number * 8 + 2) as u8, x)),
        ignored::<TerminalInfo>(b, number_on_wire((number * 8) as u8, n)),
        ignored::<SocketEndpoint>(b, bytes_on_wire((number * 8 + 2) as u8, x)),
        ignored::<SocketEndpoint>(b, number_on_wire((number * 8) as u8, n)),
        ignored::<PortForwardSourceRequest>(b, bytes_on_wire((number * 8 + 2) as u8, x)),
        ignored::<PortForwardSourceRequest>(b, number_on_wire((number * 8) as u8, n)),
        ignored::<InitialPayload>(b, bytes_on_wire((number * 8 + 2) as u8, x)),
        ignored::<InitialPayload>(b, number_on_wire((number * 8) as u8, n)),
        ignored::<InitialResponse>(b, bytes_on_wire((number * 8 + 2) as u8, x)),
        ignored::<InitialResponse>(b, number_on_wire((number * 8) as u8, n)),
{
    lemma_unknown::<ConnectRequest>(b, number, x, n);
    lemma_unknown::<ConnectResponse>(b, number, x, n);
    lemma_unknown::<SequenceHeader>(b, number, x, n);
    lemma_unknown::<CatchupBuffer>(b, number, x, n);
    lemma_unknown::<TerminalBuffer>(b, number, x, n);
    lemma_unknown::<TerminalInfo>(b, number, x, n);
    lemma_unknown::<SocketEndpoint>(b, number, x, n);
    lemma_unknown::<PortForwardSourceRequest>(b, number, x, n);
    lemma_unknown::<InitialPayload>(b, number, x, n);
    lemma_unknown::<InitialResponse>(b, number, x, n);
}

/// A field that does not have the kind that it should have counts as missing; one that
/// may occur several times, or holds a message, is skipped.
pub proof fn fields_of_the_wrong_kind(b: Seq<u8>, n: i32, x: Seq<u8>)
    requires
        x.len() <= u64::MAX,
    ensures
        message::decoding::<ConnectRequest>(b) matches Ok(v) ==> message::decoding::<
            ConnectRequest,
        >(b + number_on_wire(0x08, n)) == Ok::<ConnectRequestView, ProtoError>(
            ConnectRequestView { client_id: None, ..v },
        ) && message::decoding::<ConnectRequest>(b + bytes_on_wire(0x12, x)) == Ok::<
            ConnectRequestView,
            ProtoError,
        >(ConnectRequestView { version: None, ..v }),
        message::decoding::<SequenceHeader>(b) is Ok ==> message::decoding::<SequenceHeader>(
            b + bytes_on_wire(0x0a, x),
        ) == Ok::<SequenceHeaderView, ProtoError>(SequenceHeaderView { sequence_number: None }),
        message::decoding::<TerminalBuffer>(b) is Ok ==> message::decoding::<TerminalBuffer>(
            b + number_on_wire(0x08, n),
        ) == Ok::<TerminalBufferView, ProtoError>(TerminalBufferView { buffer: None }),
        ignored::<CatchupBuffer>(b, number_on_wire(0x08, n)),
        ignored::<ConnectResponse>(b, bytes_on_wire(0x0a, x)),
{
    lemma_number_field(1, 0x08, n);
    lemma_bytes_field(1, 0x0a, x);
    lemma_bytes_field(2, 0x12, x);
    let number = wire::int32_field(1, n);
    let first = wire::bytes_field(1, x);
    let second = wire::bytes_field(2, x);
    if message::decoding::<ConnectRequest>(b) is Ok {
        lemma_decoding_extends::<ConnectRequest>(b, number);
        lemma_decoding_extends::<ConnectRequest>(b, second);
    }
    if message::decoding::<SequenceHeader>(b) is Ok {
        lemma_decoding_extends::<SequenceHeader>(b, first);
    }
    if message::decoding::<TerminalBuffer>(b) is Ok {
        lemma_decoding_extends::<TerminalBuffer>(b, number);
    }
    if message::decoding::<CatchupBuffer>(b) is Ok {
        lemma_decoding_extends::<CatchupBuffer>(b, number);
    }
    if message::decoding::<ConnectResponse>(b) is Ok {
        lemma_decoding_extends::<ConnectResponse>(b, first);
    }
}

proof fn lemma_error_extends(s: Seq<u8>, t: Seq<u8>)
    requires
        wire::fields_of(s) is Ok,
        wire::fields_of(t) is Err,
    ensures
        wire::fields_of(s + t) == Err::<Seq<WireField>, ProtoError>(wire::fields_of(t)->Err_0),
    decreases s.len(),
{
    if s.len() == 0 {
        assert(s + t =~= t);
    } else {
        let n = wire::field_at_front(s)->Ok_0.1;
        wire::lemma_field_len(s);
        lemma_front_extends(s, t);
        assert((s + t).skip(n as int) =~= s.skip(n as int) + t);
        lemma_error_extends(s.skip(n as int), t);
    }
}

/// Bytes that break off in the middle of a field, or hold a kind of field that does not
/// exist, are no message, whatever came before.
pub proof fn broken_messages_are_refused<M: MessageSpec>(
    b: Seq<u8>,
    tag: u8,
    len: nat,
    data: Seq<u8>,
    rest: Seq<u8>,
)
    requires
        wire::fields_of(b) is Ok,
        tag < 128,
        data.len() < len <= u64::MAX,
    ensures
        tag % 8 == 2 ==> message::decoding::<M>(b + (seq![tag] + wire::varint(len) + data))
            == Err::<M::V, ProtoError>(ProtoError::Io(IoErrorKind::UnexpectedEof)),
        tag % 8 == 0 || tag % 8 == 2 ==> message::decoding::<M>(b + seq![tag]) == Err::<
            M::V,
            ProtoError,
        >(ProtoError::Truncated),
        tag % 8 == 3 || tag % 8 == 4 || tag % 8 > 5 ==> message::decoding::<M>(
            b + (seq![tag] + rest),
        ) == Err::<M::V, ProtoError>(ProtoError::InvalidWireType),
{
    varints_are_read(seq![tag], wire::varint(len) + data);
    varints_are_read(seq![tag], Seq::empty());
    varints_are_read(seq![tag], rest);
    assert(seq![tag].skip(1) =~= Seq::empty());
    assert(base_128(seq![tag]) == tag) by {
        reveal_with_fuel(base_128, 2);
    }
    let cut = seq![tag] + wire::varint(len) + data;
    wire::varint_round_trip(len as u64, data);
    assert(cut =~= seq![tag] + (wire::varint(len) + data));
    assert(cut.skip(1) =~= wire::varint(len) + data);
    assert((wire::varint(len) + data).skip(wire::varint(len).len() as int) =~= data);
    assert(seq![tag] + Seq::<u8>::empty() =~= seq![tag]);
    let odd = seq![tag] + rest;
    if tag % 8 == 2 {
        lemma_error_extends(b, cut);
    }
    if tag % 8 == 0 || tag % 8 == 2 {
        lemma_error_extends(b, seq![tag]);
    }
    if tag % 8 == 3 || tag % 8 == 4 || tag % 8 > 5 {
        assert(wire::fields_of(odd) is Err);
        lemma_error_extends(b, odd);
    }
}

} // verus!

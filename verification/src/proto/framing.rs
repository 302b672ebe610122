//! Length-prefixed messages: the form in which the handshake sends protobufs,
//! before the connection is encrypted.
//!
//! The prefix is a 64-bit length in the byte order of the host, as the official
//! client on little-endian machines writes it.

use vstd::prelude::*;

use super::message;
use super::message::{MessageSpec, ProtoMessage};
use super::wire;
use super::wire::ProtoError;
use crate::byte_order;
use crate::byte_order::ByteOrder;

verus! {

/// The number of bytes of the length prefix.
pub const PREFIX_LEN: usize = 8;

/// The longest message that is accepted, in bytes.
pub const MAX_PROTO_LEN: u64 = 134_217_728;

/// Why a length-prefixed message could not be read.
#[derive(Debug, Clone, Copy, PartialEq, Eq, Structural)]
pub enum ReadProtoError {
    /// The input ended before the message did.
    UnexpectedEof,
    /// The prefix is negative, or larger than [`MAX_PROTO_LEN`].
    InvalidLength(i64),
    /// The bytes after the prefix are not a message.
    Decode(ProtoError),
}

/// A message behind its length.
pub open spec fn framed(order: ByteOrder, payload: Seq<u8>) -> Seq<u8> {
    byte_order::int_bytes(order, payload.len(), PREFIX_LEN as nat) + payload
}

/// The length that a prefix announces.
pub open spec fn announced(order: ByteOrder, prefix: Seq<u8>) -> Result<nat, ReadProtoError> {
    let len = byte_order::int_value(order, prefix);
    if len <= MAX_PROTO_LEN {
        Ok(len)
    } else {
        Err(ReadProtoError::InvalidLength((len as u64) as i64))
    }
}

/// The message at the front of `input`, and how many bytes it takes with its
/// prefix.
pub open spec fn unframed<M: MessageSpec>(order: ByteOrder, input: Seq<u8>) -> Result<
    (M::V, nat),
    ReadProtoError,
> {
    if input.len() < PREFIX_LEN {
        Err(ReadProtoError::UnexpectedEof)
    } else {
        match announced(order, input.take(PREFIX_LEN as int)) {
            Err(e) => Err(e),
            Ok(len) => if input.len() < PREFIX_LEN + len {
                Err(ReadProtoError::UnexpectedEof)
            } else {
                match message::decoding::<M>(input.subrange(PREFIX_LEN as int, PREFIX_LEN + len)) {
                    Err(e) => Err(ReadProtoError::Decode(e)),
                    Ok(v) => Ok((v, PREFIX_LEN as nat + len)),
                }
            },
        }
    }
}

/// A message behind its length, in the given byte order.
pub fn write_proto_in<M: ProtoMessage>(order: ByteOrder, msg: &M) -> (r: Vec<u8>)
    ensures
        r@ == framed(order, message::encoding::<M>(msg@)),
{
    let payload = msg.encode();
    let mut out = byte_order::to_bytes(order, payload.len() as u64, PREFIX_LEN);
    wire::put_slice(&mut out, payload.as_slice());
    out
}

/// Writes a length-prefixed message, in the byte order of the host.
pub fn write_proto<M: ProtoMessage>(msg: &M) -> (r: Vec<u8>)
    ensures
        exists|order: ByteOrder| r@ == #[trigger] framed(order, message::encoding::<M>(msg@)),
{
    write_proto_in(byte_order::host_byte_order(), msg)
}

/// The length that a prefix announces, in the given byte order.
pub fn proto_length_in(order: ByteOrder, prefix: &[u8]) -> (r: Result<usize, ReadProtoError>)
    requires
        prefix@.len() == PREFIX_LEN,
    ensures
        match r {
            Ok(len) => announced(order, prefix@) == Ok::<nat, ReadProtoError>(len as nat),
            Err(e) => announced(order, prefix@) == Err::<nat, ReadProtoError>(e),
        },
{
    let len: u64 = byte_order::from_bytes(order, prefix);
    if len > MAX_PROTO_LEN {
        Err(ReadProtoError::InvalidLength(len as i64))
    } else {
        Ok(len as usize)
    }
}

/// The length that a prefix announces, in the byte order of the host: how many
/// bytes have to be read behind it.
pub fn proto_length(prefix: &[u8]) -> (r: Result<usize, ReadProtoError>)
    requires
        prefix@.len() == PREFIX_LEN,
    ensures
        exists|order: ByteOrder|
            match r {
                Ok(len) => #[trigger] announced(order, prefix@) == Ok::<nat, ReadProtoError>(
                    len as nat,
                ),
                Err(e) => announced(order, prefix@) == Err::<nat, ReadProtoError>(e),
            },
{
    let order = byte_order::host_byte_order();
    let r = proto_length_in(order, prefix);
    assert(match r {
        Ok(len) => announced(order, prefix@) == Ok::<nat, ReadProtoError>(len as nat),
        Err(e) => announced(order, prefix@) == Err::<nat, ReadProtoError>(e),
    });
    r
}

/// Whether `r` is what the message at the front of `input` gives.
pub open spec fn reads_as<M: ProtoMessage>(
    order: ByteOrder,
    input: Seq<u8>,
    r: Result<(M, usize), ReadProtoError>,
) -> bool {
    match r {
        Ok((msg, n)) => unframed::<M>(order, input) == Ok::<(M::V, nat), ReadProtoError>(
            (msg@, n as nat),
        ) && M::valid(msg@),
        Err(e) => unframed::<M>(order, input) == Err::<(M::V, nat), ReadProtoError>(e),
    }
}

/// Reads the length-prefixed message at the front of `input`, in the given byte
/// order; gives it and how many bytes it takes.
pub fn read_proto_in<M: ProtoMessage>(order: ByteOrder, input: &[u8]) -> (r: Result<
    (M, usize),
    ReadProtoError,
>)
    ensures
        reads_as(order, input@, r),
        match r {
            Ok((msg, n)) => unframed::<M>(order, input@) == Ok::<(M::V, nat), ReadProtoError>(
                (msg@, n as nat),
            ),
            Err(e) => unframed::<M>(order, input@) == Err::<(M::V, nat), ReadProtoError>(e),
        },
{
    if input.len() < PREFIX_LEN {
        return Err(ReadProtoError::UnexpectedEof);
    }
    let prefix = vstd::slice::slice_subrange(input, 0, PREFIX_LEN);
    assert(prefix@ =~= input@.take(PREFIX_LEN as int));
    let len: usize = match proto_length_in(order, prefix) {
        Ok(len) => len,
        Err(e) => return Err(e),
    };
    if input.len() - PREFIX_LEN < len {
        return Err(ReadProtoError::UnexpectedEof);
    }
    let end: usize = PREFIX_LEN + len;
    match M::decode(vstd::slice::slice_subrange(input, PREFIX_LEN, end)) {
        Ok(msg) => Ok((msg, end)),
        Err(e) => Err(ReadProtoError::Decode(e)),
    }
}

/// Reads the length-prefixed message at the front of `input`, in the byte order
/// of the host; gives it and how many bytes it takes.
pub fn read_proto<M: ProtoMessage>(input: &[u8]) -> (r: Result<(M, usize), ReadProtoError>)
    ensures
        exists|order: ByteOrder| #[trigger] reads_as(order, input@, r),
        match r {
            Ok((msg, n)) => unframed::<M>(ByteOrder::Little, input@) == Ok::<
                (M::V, nat),
                ReadProtoError,
            >((msg@, n as nat)) || unframed::<M>(ByteOrder::Big, input@) == Ok::<
                (M::V, nat),
                ReadProtoError,
            >((msg@, n as nat)),
            Err(e) => unframed::<M>(ByteOrder::Little, input@) == Err::<
                (M::V, nat),
                ReadProtoError,
            >(e) || unframed::<M>(ByteOrder::Big, input@) == Err::<(M::V, nat), ReadProtoError>(e),
        },
{
    read_proto_in(byte_order::host_byte_order(), input)
}

/// A message that was written reads back, in either byte order, and takes all of
/// its bytes and none of those behind it. It must not be longer than what is
/// accepted.
pub proof fn framing_round_trip<M: ProtoMessage>(order: ByteOrder, v: M::V, rest: Seq<u8>)
    requires
        M::valid(v),
        message::encoding::<M>(v).len() <= MAX_PROTO_LEN,
    ensures
        ({
            let bytes = framed(order, message::encoding::<M>(v));
            unframed::<M>(order, bytes + rest) == Ok::<(M::V, nat), ReadProtoError>(
                (M::delivered(v), bytes.len()),
            )
        }),
{
    let payload = message::encoding::<M>(v);
    let bytes = framed(order, payload);
    let input = bytes + rest;
    byte_order::lemma_byte_ranges();
    byte_order::int_round_trip(order, payload.len(), PREFIX_LEN as nat);
    assert(input.take(PREFIX_LEN as int) =~= byte_order::int_bytes(
        order,
        payload.len(),
        PREFIX_LEN as nat,
    ));
    assert(input.subrange(PREFIX_LEN as int, PREFIX_LEN + payload.len()) =~= payload);
    M::round_trip(v);
}

/// A message goes behind its length, which takes eight bytes.
pub proof fn a_length_goes_before_a_message(order: ByteOrder, payload: Seq<u8>)
    requires
        payload.len() < 0x1_0000_0000_0000_0000,
    ensures
        framed(order, payload).len() == 8 + payload.len(),
        byte_order::int_value(order, framed(order, payload).take(8)) == payload.len(),
        framed(order, payload).skip(8) == payload,
{
    byte_order::lemma_byte_ranges();
    byte_order::int_round_trip(order, payload.len(), 8);
    let f = framed(order, payload);
    assert(f.take(8) =~= byte_order::int_bytes(order, payload.len(), 8));
    assert(f.skip(8) =~= payload);
}

/// Behind its length, just the bytes of a message are read, whatever follows them. A
/// length over 128 MiB is refused, and so is an input that ends too early.
pub proof fn messages_are_read_behind_their_length<M: MessageSpec>(
    order: ByteOrder,
    prefix: Seq<u8>,
    payload: Seq<u8>,
    rest: Seq<u8>,
)
    requires
        prefix.len() == 8,
    ensures
        byte_order::int_value(order, prefix) == payload.len() && payload.len() <= 134_217_728
            ==> unframed::<M>(order, prefix + payload + rest) == (match message::decoding::<M>(
            payload,
        ) {
            Ok(v) => Ok::<(M::V, nat), ReadProtoError>((v, 8 + payload.len())),
            Err(e) => Err::<(M::V, nat), ReadProtoError>(ReadProtoError::Decode(e)),
        }),
        payload.len() < byte_order::int_value(order, prefix) <= 134_217_728 ==> unframed::<M>(
            order,
            prefix + payload,
        ) == Err::<(M::V, nat), ReadProtoError>(ReadProtoError::UnexpectedEof),
        byte_order::int_value(order, prefix) > 134_217_728 ==> unframed::<M>(
            order,
            prefix + payload,
        ) == Err::<(M::V, nat), ReadProtoError>(
            ReadProtoError::InvalidLength(
                if byte_order::int_value(order, prefix) < 0x8000_0000_0000_0000 {
                    byte_order::int_value(order, prefix) as i64
                } else {
                    (byte_order::int_value(order, prefix) - 0x1_0000_0000_0000_0000) as i64
                },
            ),
        ),
        payload.len() < 8 ==> unframed::<M>(order, payload) == Err::<(M::V, nat), ReadProtoError>(
            ReadProtoError::UnexpectedEof,
        ),
{
    let len = byte_order::int_value(order, prefix);
    byte_order::lemma_int_bound(order, prefix);
    byte_order::lemma_byte_ranges();
    let u = len as u64;
    assert(u >= 0x8000_0000_0000_0000 ==> (u as i64) == u - 0x1_0000_0000_0000_0000)
        by (bit_vector);
    let whole = prefix + payload + rest;
    assert(whole.take(8) =~= prefix);
    assert((prefix + payload).take(8) =~= prefix);
    if len == payload.len() {
        assert(whole.subrange(8, 8 + len as int) =~= payload);
    }
}

} // verus!

//! What it is to be a message: a list of fields in writing order, and a rule by
//! which each field that is read back updates the message.

use vstd::prelude::*;

use super::wire;
use super::wire::{ProtoError, WireField};

verus! {

/// The view of what an `Option` holds.
pub open spec fn opt_view<T: View>(o: Option<T>) -> Option<T::V> {
    match o {
        Some(t) => Some(t@),
        None => None,
    }
}

/// The field of an optional string.
pub open spec fn optional_string(number: u32, o: Option<Seq<char>>) -> Seq<WireField> {
    match o {
        Some(s) => seq![wire::string_field(number, s)],
        None => Seq::empty(),
    }
}

/// The field of an optional byte string.
pub open spec fn optional_bytes(number: u32, o: Option<Seq<u8>>) -> Seq<WireField> {
    match o {
        Some(b) => seq![wire::bytes_field(number, b)],
        None => Seq::empty(),
    }
}

/// The field of an optional `int32`.
pub open spec fn optional_int32(number: u32, o: Option<i32>) -> Seq<WireField> {
    match o {
        Some(v) => seq![wire::int32_field(number, v)],
        None => Seq::empty(),
    }
}

/// The fields of a repeated byte string.
pub open spec fn repeated_bytes(number: u32, items: Seq<Seq<u8>>) -> Seq<WireField> {
    items.map_values(|b: Seq<u8>| wire::bytes_field(number, b))
}

/// The meaning of a protobuf message, in terms of its fields.
pub trait MessageSpec: Sized + View {
    /// What a message of no fields decodes to.
    spec fn empty() -> Self::V;

    /// The fields of a message, in writing order.
    spec fn fields(v: Self::V) -> Seq<WireField>;

    /// A message once field `f` has been read into it.
    spec fn apply(v: Self::V, f: WireField) -> Result<Self::V, ProtoError>;

    /// What holds of every message that is decoded, or built by the library.
    spec fn valid(v: Self::V) -> bool;

    /// What arrives where `v` is sent.
    spec fn delivered(v: Self::V) -> Self::V;
}

/// The bytes of a message.
pub open spec fn encoding<M: MessageSpec>(v: M::V) -> Seq<u8> {
    wire::encode_fields(M::fields(v))
}

/// What `fields` add up to, or the first error on the way.
pub open spec fn collect<M: MessageSpec>(fields: Seq<WireField>) -> Result<M::V, ProtoError>
    decreases fields.len(),
{
    if fields.len() == 0 {
        Ok(M::empty())
    } else {
        match collect::<M>(fields.drop_last()) {
            Err(e) => Err(e),
            Ok(v) => M::apply(v, fields.last()),
        }
    }
}

/// The message that `bytes` stand for.
pub open spec fn decoding<M: MessageSpec>(bytes: Seq<u8>) -> Result<M::V, ProtoError> {
    match wire::fields_of(bytes) {
        Err(e) => Err(e),
        Ok(fields) => collect::<M>(fields),
    }
}

/// A protobuf message.
pub trait ProtoMessage: MessageSpec {
    /// The bytes of the message: those of its fields.
    fn encode(&self) -> (r: Vec<u8>)
        ensures
            r@ == encoding::<Self>(self@),
    ;

    /// Reads a message: the fields one after the other, where a later one of
    /// the same number replaces an earlier one unless the field is repeated.
    fn decode(bytes: &[u8]) -> (r: Result<Self, ProtoError>)
        ensures
            match r {
                Ok(m) => decoding::<Self>(bytes@) == Ok::<Self::V, ProtoError>(m@) && Self::valid(
                    m@,
                ),
                Err(e) => decoding::<Self>(bytes@) == Err::<Self::V, ProtoError>(e),
            },
    ;

    /// Decoding what was encoded gives what `delivered` says. Lengths must fit
    /// in 64 bits, as those of all messages in memory do.
    proof fn round_trip(v: Self::V)
        requires
            Self::valid(v),
            encoding::<Self>(v).len() <= u64::MAX,
        ensures
            decoding::<Self>(encoding::<Self>(v)) == Ok::<Self::V, ProtoError>(Self::delivered(v)),
    ;
}

/// The encoding of fields one after the other is that of the first ones, then
/// that of the rest.
pub(crate) proof fn lemma_encode_concat(a: Seq<WireField>, b: Seq<WireField>)
    ensures
        wire::encode_fields(a + b) == wire::encode_fields(a) + wire::encode_fields(b),
    decreases b.len(),
{
    if b.len() == 0 {
        assert(a + b =~= a);
        assert(wire::encode_fields(a) + Seq::<u8>::empty() =~= wire::encode_fields(a));
    } else {
        lemma_encode_concat(a, b.drop_last());
        assert((a + b).drop_last() =~= a + b.drop_last());
        assert(wire::encode_fields(a + b) =~= wire::encode_fields(a) + wire::encode_fields(b));
    }
}

pub(crate) proof fn lemma_encode_one(f: WireField)
    ensures
        wire::encode_fields(seq![f]) == wire::encode_field(f),
{
    reveal_with_fuel(wire::encode_fields, 2);
    assert(seq![f].drop_last() =~= Seq::empty());
    assert(wire::encode_fields(seq![f]) =~= wire::encode_field(f));
}

/// What a further field adds to what came before it.
pub(crate) proof fn lemma_collect_push<M: MessageSpec>(s: Seq<WireField>, f: WireField)
    ensures
        collect::<M>(s.push(f)) == match collect::<M>(s) {
            Err(e) => Err(e),
            Ok(v) => M::apply(v, f),
        },
{
    assert(s.push(f).drop_last() =~= s);
}

/// What the field at `i` adds to the fields before it.
pub(crate) proof fn lemma_collect_next<M: MessageSpec>(all: Seq<WireField>, i: int)
    requires
        0 <= i < all.len(),
    ensures
        collect::<M>(all.take(i + 1)) == match collect::<M>(all.take(i)) {
            Err(e) => Err(e),
            Ok(v) => M::apply(v, all[i]),
        },
{
    assert(all.take(i + 1) =~= all.take(i).push(all[i]));
    lemma_collect_push::<M>(all.take(i), all[i]);
}

/// An error at a field is the outcome, whatever fields follow.
pub(crate) proof fn lemma_collect_error<M: MessageSpec>(all: Seq<WireField>, i: int)
    requires
        0 <= i <= all.len(),
        collect::<M>(all.take(i)) is Err,
    ensures
        collect::<M>(all) == collect::<M>(all.take(i)),
    decreases all.len() - i,
{
    if i < all.len() {
        lemma_collect_next::<M>(all, i);
        lemma_collect_error::<M>(all, i + 1);
    } else {
        assert(all.take(i) =~= all);
    }
}

/// What an optional field adds to what came before it.
pub(crate) proof fn lemma_collect_optional<M: MessageSpec>(s: Seq<WireField>, t: Seq<WireField>)
    requires
        t.len() <= 1,
    ensures
        collect::<M>(s + t) == match collect::<M>(s) {
            Err(e) => Err(e),
            Ok(v) => if t.len() == 0 {
                Ok(v)
            } else {
                M::apply(v, t[0])
            },
        },
{
    if t.len() == 0 {
        assert(s + t =~= s);
    } else {
        assert(s + t =~= s.push(t[0]));
        lemma_collect_push::<M>(s, t[0]);
    }
}

/// A field is no longer than the message that it is part of.
pub(crate) proof fn lemma_field_fits(fields: Seq<WireField>, i: int)
    requires
        0 <= i < fields.len(),
    ensures
        fields[i].data.len() <= wire::encode_fields(fields).len(),
    decreases fields.len(),
{
    if i < fields.len() - 1 {
        lemma_field_fits(fields.drop_last(), i);
    }
}

/// The fields of an encoded message read back as they were written, provided
/// that each is a varint or length-delimited.
pub(crate) proof fn lemma_fields_back(fields: Seq<WireField>)
    requires
        wire::encode_fields(fields).len() <= u64::MAX,
        forall|i: int|
            0 <= i < fields.len() ==> (#[trigger] fields[i]).wire_type == 2 || wire::writable(
                fields[i],
            ),
    ensures
        wire::fields_of(wire::encode_fields(fields)) == Ok::<Seq<WireField>, ProtoError>(fields),
{
    assert forall|i: int| 0 <= i < fields.len() implies wire::writable(#[trigger] fields[i]) by {
        lemma_field_fits(fields, i);
    }
    wire::fields_round_trip(fields);
}

pub(crate) fn put_optional_string(out: &mut Vec<u8>, field: u32, s: &Option<String>)
    ensures
        final(out)@ == old(out)@ + wire::encode_fields(optional_string(field, opt_view(*s))),
{
    if let Some(s) = s {
        proof {
            lemma_encode_one(wire::string_field(field, s@));
        }
        wire::write_string(out, field, s.as_str());
    } else {
        assert(out@ =~= out@ + Seq::<u8>::empty());
    }
}

pub(crate) fn put_optional_bytes(out: &mut Vec<u8>, field: u32, b: &Option<Vec<u8>>)
    ensures
        final(out)@ == old(out)@ + wire::encode_fields(optional_bytes(field, opt_view(*b))),
{
    if let Some(b) = b {
        proof {
            lemma_encode_one(wire::bytes_field(field, b@));
        }
        wire::write_bytes(out, field, b.as_slice());
    } else {
        assert(out@ =~= out@ + Seq::<u8>::empty());
    }
}

pub(crate) fn put_optional_int32(out: &mut Vec<u8>, field: u32, v: Option<i32>)
    ensures
        final(out)@ == old(out)@ + wire::encode_fields(optional_int32(field, v)),
{
    if let Some(v) = v {
        proof {
            lemma_encode_one(wire::int32_field(field, v));
        }
        wire::write_int32(out, field, v);
    } else {
        assert(out@ =~= out@ + Seq::<u8>::empty());
    }
}

} // verus!

//! Protobuf wire format: base-128 varints and tagged fields.

use vstd::prelude::*;
use vstd::utf8::*;

use crate::io::IoErrorKind;

verus! {

/// Why a byte string is not a protobuf message.
#[derive(Debug, Clone, Copy, PartialEq, Eq, Structural)]
pub enum ProtoError {
    /// The input ended inside a fixed-size or length-delimited field.
    Io(IoErrorKind),
    /// A varint went on past its tenth byte.
    InvalidVarint,
    /// The input ended inside a varint.
    Truncated,
    /// A tag named a wire type that protobuf does not have.
    InvalidWireType,
}

/// The number of bytes that a varint may take.
pub const MAX_VARINT_LEN: usize = 10;

/// The varint of `v`: seven bits a byte, the least significant first, the top
/// bit set on all bytes but the last.
pub open spec fn varint(v: nat) -> Seq<u8>
    decreases v,
{
    if v < 128 {
        seq![v as u8]
    } else {
        seq![(v % 128 + 128) as u8] + varint(v / 128)
    }
}

/// The number that the varint at the front of `s` stands for, and how many
/// bytes it takes, where at most `limit` are allowed.
pub open spec fn scan_varint(s: Seq<u8>, limit: nat) -> Result<(nat, nat), ProtoError>
    decreases limit,
{
    if limit == 0 {
        Err(ProtoError::InvalidVarint)
    } else if s.len() == 0 {
        Err(ProtoError::Truncated)
    } else if s[0] < 128 {
        Ok((s[0] as nat, 1))
    } else {
        match scan_varint(s.skip(1), (limit - 1) as nat) {
            Ok((v, n)) => Ok(((s[0] - 128 + 128 * v) as nat, n + 1)),
            Err(e) => Err(e),
        }
    }
}

/// What reading a varint gives: its low 64 bits, and how many bytes it takes.
pub open spec fn varint_at_front(s: Seq<u8>) -> Result<(u64, nat), ProtoError> {
    match scan_varint(s, MAX_VARINT_LEN as nat) {
        Ok((v, n)) => Ok(((v % 0x1_0000_0000_0000_0000) as u64, n)),
        Err(e) => Err(e),
    }
}

/// Appends `b` to `out`.
pub(crate) fn put_slice(out: &mut Vec<u8>, b: &[u8])
    ensures
        final(out)@ == old(out)@ + b@,
{
    out.extend_from_slice(b);
    assert(out@ =~= old(out)@ + b@);
}

pub(crate) fn write_varint(out: &mut Vec<u8>, v: u64)
    ensures
        final(out)@ == old(out)@ + varint(v as nat),
{
    let mut v: u64 = v;
    let ghost whole = v;
    while v >= 0x80
        invariant
            out@ + varint(v as nat) == old(out)@ + varint(whole as nat),
        decreases v,
    {
        assert(((v as u8) | 0x80) == (v % 128 + 128) as u8 && v >> 7 == v / 128) by (bit_vector);
        let ghost before = out@;
        out.push((v as u8) | 0x80);
        assert(before + varint(v as nat) =~= out@ + varint((v / 128) as nat));
        v = v >> 7;
    }
    out.push(v as u8);
    assert(out@ =~= old(out)@ + varint(whole as nat));
}

/// Where the first `i` bytes of a varint all carry the continuation bit, the
/// rest of it decides the outcome, with those bytes as low-order digits.
proof fn lemma_scan_step(s: Seq<u8>, i: nat, limit: nat)
    requires
        i < limit,
        i < s.len(),
        s[i as int] >= 128,
    ensures
        match scan_varint(s.skip(i as int + 1), (limit - i - 1) as nat) {
            Ok((v, n)) => scan_varint(s.skip(i as int), (limit - i) as nat) == Ok::<
                (nat, nat),
                ProtoError,
            >(((s[i as int] - 128 + 128 * v) as nat, n + 1)),
            Err(e) => scan_varint(s.skip(i as int), (limit - i) as nat) == Err::<
                (nat, nat),
                ProtoError,
            >(e),
        },
{
    assert(s.skip(i as int).skip(1) =~= s.skip(i as int + 1));
}

/// A seven-bit digit shifted into place above the digits that came before.
proof fn lemma_digit(low: u64, digit: u64, shift: u64)
    requires
        digit < 128,
        shift <= 63,
        low < (1u64 << shift),
    ensures
        (low | (digit << shift)) == (low + digit * (1u64 << shift)) % 0x1_0000_0000_0000_0000,
        shift <= 56 ==> (low | (digit << shift)) == low + digit * (1u64 << shift),
        shift <= 56 ==> (low | (digit << shift)) < (1u64 << ((shift + 7) as u64)),
        shift <= 56 ==> (1u64 << ((shift + 7) as u64)) == 128 * (1u64 << shift),
{
    assert((low | (digit << shift)) == (low + digit * (1u64 << shift)) % 0x1_0000_0000_0000_0000)
        by (bit_vector)
        requires
            digit < 128,
            shift <= 63,
            low < (1u64 << shift),
    ;
    if shift <= 56 {
        assert((low | (digit << shift)) == low + digit * (1u64 << shift) && (low | (digit << shift))
            < (1u64 << ((shift + 7) as u64)) && (1u64 << ((shift
            + 7) as u64)) == 128 * (1u64 << shift)) by (bit_vector)
            requires
                digit < 128,
                shift <= 56,
                low < (1u64 << shift),
        ;
    }
}

/// Reads the varint that starts at `pos`; gives it and where it ends.
pub(crate) fn read_varint(buf: &[u8], pos: usize) -> (r: Result<(u64, usize), ProtoError>)
    requires
        pos <= buf@.len(),
    ensures
        match r {
            Ok((v, next)) => pos < next <= buf@.len() && varint_at_front(buf@.skip(pos as int))
                == Ok::<(u64, nat), ProtoError>((v, (next - pos) as nat)),
            Err(e) => varint_at_front(buf@.skip(pos as int)) == Err::<(u64, nat), ProtoError>(e),
        },
{
    let ghost s = buf@.skip(pos as int);
    let mut result: u64 = 0;
    let mut shift: u64 = 0;
    let mut at: usize = pos;
    assert(s.skip(0) =~= s);
    assert((1u64 << 0) == 1) by (bit_vector);
    while shift < 64
        invariant
            s == buf@.skip(pos as int),
            pos <= at <= buf@.len(),
            shift == 7 * (at - pos),
            at - pos <= MAX_VARINT_LEN,
            shift < 64 ==> result < (1u64 << shift),
            match scan_varint(s.skip(at - pos), (MAX_VARINT_LEN - (at - pos)) as nat) {
                Ok((v, n)) => shift < 64 ==> varint_at_front(s) == Ok::<(u64, nat), ProtoError>(
                    (
                        ((result + v * (1u64 << shift)) % 0x1_0000_0000_0000_0000) as u64,
                        n + (at - pos) as nat,
                    ),
                ),
                Err(e) => varint_at_front(s) == Err::<(u64, nat), ProtoError>(e),
            },
        decreases MAX_VARINT_LEN - (at - pos),
    {
        if at == buf.len() {
            return Err(ProtoError::Truncated);
        }
        let b: u8 = buf[at];
        let ghost before = result;
        let ghost i = (at - pos) as nat;
        assert(s.skip(i as int)[0] == b);
        assert((b & 0x7f) < 128 && (b & 0x7f) == b % 128 && ((b & 0x80 == 0) <==> b < 128))
            by (bit_vector);
        proof {
            lemma_digit(before, (b & 0x7f) as u64, shift);
        }
        result = result | (((b & 0x7f) as u64) << shift);
        at = at + 1;
        if b & 0x80 == 0 {
            return Ok((result, at));
        }
        proof {
            lemma_scan_step(s, i, MAX_VARINT_LEN as nat);
            if shift <= 56 {
                let unit = (1u64 << shift) as int;
                let digit = (b & 0x7f) as int;
                let next = (1u64 << ((shift + 7) as u64)) as int;
                assert(next == 128 * unit);
                assert(result == before + digit * unit);
                match scan_varint(s.skip(i as int + 1), (MAX_VARINT_LEN - i - 1) as nat) {
                    Ok((v, n)) => {
                        assert(before + (digit + 128 * v) * unit == result + v * next)
                            by (nonlinear_arith)
                            requires
                                next == 128 * unit,
                                result == before + digit * unit,
                        ;
                    },
                    Err(e) => {},
                }
            }
        }
        shift = shift + 7;
    }
    Err(ProtoError::InvalidVarint)
}

/// A tagged field as it stands in a message. The data of a varint field is
/// that varint in its shortest form.
pub struct WireField {
    pub number: u32,
    pub wire_type: u32,
    pub data: Seq<u8>,
}

/// A varint field.
pub open spec fn varint_field(number: u32, v: nat) -> WireField {
    WireField { number, wire_type: 0, data: varint(v) }
}

/// A length-delimited field.
pub open spec fn bytes_field(number: u32, data: Seq<u8>) -> WireField {
    WireField { number, wire_type: 2, data }
}

/// A string field, which holds the UTF-8 bytes of `text`.
pub open spec fn string_field(number: u32, text: Seq<char>) -> WireField {
    bytes_field(number, encode_utf8(text))
}

/// An `int32` field: a negative value is sign-extended to 64 bits.
pub open spec fn int32_field(number: u32, v: i32) -> WireField {
    varint_field(number, (v as u64) as nat)
}

/// A `bool` field.
pub open spec fn bool_field(number: u32, v: bool) -> WireField {
    varint_field(number, if v { 1 } else { 0 })
}

/// The bytes of a field: its tag, the length where it is length-delimited, and
/// its data.
pub open spec fn encode_field(f: WireField) -> Seq<u8> {
    varint((f.number * 8 + f.wire_type) as nat) + (if f.wire_type == 2 {
        varint(f.data.len())
    } else {
        Seq::empty()
    }) + f.data
}

/// The bytes of a message: those of its fields, one after the other.
pub open spec fn encode_fields(fields: Seq<WireField>) -> Seq<u8>
    decreases fields.len(),
{
    if fields.len() == 0 {
        Seq::empty()
    } else {
        encode_fields(fields.drop_last()) + encode_field(fields.last())
    }
}

/// The first `n` bytes of `s` as the data of a field that has `skipped` bytes
/// before it.
pub open spec fn field_of_bytes(
    s: Seq<u8>,
    number: u32,
    wire_type: u32,
    n: nat,
    skipped: nat,
) -> Result<(WireField, nat), ProtoError> {
    if n <= s.len() {
        Ok((WireField { number, wire_type, data: s.take(n as int) }, skipped + n))
    } else {
        Err(ProtoError::Io(IoErrorKind::UnexpectedEof))
    }
}

/// The field at the front of `s`, and how many bytes it takes.
pub open spec fn field_at_front(s: Seq<u8>) -> Result<(WireField, nat), ProtoError> {
    match varint_at_front(s) {
        Err(e) => Err(e),
        Ok((tag, n)) => {
            let number = ((tag / 8) % 0x1_0000_0000) as u32;
            let wire_type = (tag % 8) as u32;
            let body = s.skip(n as int);
            if wire_type == 0 {
                match varint_at_front(body) {
                    Err(e) => Err(e),
                    Ok((v, m)) => Ok((varint_field(number, v as nat), n + m)),
                }
            } else if wire_type == 1 {
                field_of_bytes(body, number, wire_type, 8, n)
            } else if wire_type == 2 {
                match varint_at_front(body) {
                    Err(e) => Err(e),
                    Ok((len, m)) => field_of_bytes(
                        body.skip(m as int),
                        number,
                        wire_type,
                        len as nat,
                        n + m,
                    ),
                }
            } else if wire_type == 5 {
                field_of_bytes(body, number, wire_type, 4, n)
            } else {
                Err(ProtoError::InvalidWireType)
            }
        },
    }
}

/// The fields of a message in order, or the first error on the way.
pub open spec fn fields_of(s: Seq<u8>) -> Result<Seq<WireField>, ProtoError>
    decreases s.len(),
{
    if s.len() == 0 {
        Ok(Seq::empty())
    } else {
        match field_at_front(s) {
            Err(e) => Err(e),
            Ok((f, n)) => if 0 < n <= s.len() {
                match fields_of(s.skip(n as int)) {
                    Err(e) => Err(e),
                    Ok(rest) => Ok(seq![f] + rest),
                }
            } else {
                Err(ProtoError::Truncated)
            },
        }
    }
}

/// The text of a field: `None` where it is not length-delimited or not UTF-8.
pub open spec fn text_of(f: WireField) -> Option<Seq<char>> {
    if f.wire_type == 2 && valid_utf8(f.data) {
        Some(decode_utf8(f.data))
    } else {
        None
    }
}

/// The bytes of a length-delimited field.
pub open spec fn bytes_of(f: WireField) -> Option<Seq<u8>> {
    if f.wire_type == 2 {
        Some(f.data)
    } else {
        None
    }
}

/// The number of a varint field.
pub open spec fn varint_of(f: WireField) -> Option<u64> {
    if f.wire_type == 0 {
        match varint_at_front(f.data) {
            Ok((v, _)) => Some(v),
            Err(_) => None,
        }
    } else {
        None
    }
}

/// The low 32 bits of a varint field, as a signed number.
pub open spec fn int32_of(f: WireField) -> Option<i32> {
    match varint_of(f) {
        Some(v) => Some(v as i32),
        None => None,
    }
}

pub(crate) fn write_tag(out: &mut Vec<u8>, field: u32, wire_type: u32)
    requires
        wire_type < 8,
    ensures
        final(out)@ == old(out)@ + varint((field * 8 + wire_type) as nat),
{
    assert((((field as u64) << 3) | wire_type as u64) == field * 8 + wire_type) by (bit_vector)
        requires
            wire_type < 8,
    ;
    write_varint(out, ((field as u64) << 3) | wire_type as u64);
}

pub(crate) fn write_bytes(out: &mut Vec<u8>, field: u32, b: &[u8])
    ensures
        final(out)@ == old(out)@ + encode_field(bytes_field(field, b@)),
{
    write_tag(out, field, 2);
    write_varint(out, b.len() as u64);
    put_slice(out, b);
    assert(out@ =~= old(out)@ + encode_field(bytes_field(field, b@)));
}

pub(crate) fn write_string(out: &mut Vec<u8>, field: u32, s: &str)
    ensures
        final(out)@ == old(out)@ + encode_field(string_field(field, s@)),
{
    write_bytes(out, field, s.as_bytes());
}

pub(crate) fn write_int32(out: &mut Vec<u8>, field: u32, v: i32)
    ensures
        final(out)@ == old(out)@ + encode_field(int32_field(field, v)),
{
    write_tag(out, field, 0);
    write_varint(out, v as u64);
    assert(out@ =~= old(out)@ + encode_field(int32_field(field, v)));
}

pub(crate) fn write_bool(out: &mut Vec<u8>, field: u32, v: bool)
    ensures
        final(out)@ == old(out)@ + encode_field(bool_field(field, v)),
{
    write_tag(out, field, 0);
    write_varint(out, if v { 1 } else { 0 });
    assert(out@ =~= old(out)@ + encode_field(bool_field(field, v)));
}

pub(crate) fn write_embedded(out: &mut Vec<u8>, field: u32, payload: &[u8])
    ensures
        final(out)@ == old(out)@ + encode_field(bytes_field(field, payload@)),
{
    write_bytes(out, field, payload);
}

/// A field that was read from a message.
pub(crate) struct Field {
    pub number: u32,
    pub wire_type: u32,
    pub data: Vec<u8>,
}

impl Field {
    pub(crate) open spec fn view(&self) -> WireField {
        WireField { number: self.number, wire_type: self.wire_type, data: self.data@ }
    }
}

/// A varint takes at least one byte, and no more than there are.
proof fn lemma_scan_len(s: Seq<u8>, limit: nat)
    ensures
        scan_varint(s, limit) matches Ok((v, n)) ==> 0 < n <= s.len(),
    decreases limit,
{
    if limit > 0 && s.len() > 0 && s[0] >= 128 {
        lemma_scan_len(s.skip(1), (limit - 1) as nat);
    }
}

/// A field takes at least one byte, and no more than there are.
pub proof fn lemma_field_len(s: Seq<u8>)
    ensures
        field_at_front(s) matches Ok((f, n)) ==> 0 < n <= s.len(),
{
    lemma_scan_len(s, MAX_VARINT_LEN as nat);
    if let Ok((tag, n)) = varint_at_front(s) {
        lemma_scan_len(s.skip(n as int), MAX_VARINT_LEN as nat);
    }
}

/// The fields of `s` from `at` on come after those before it.
proof fn lemma_fields_step(s: Seq<u8>, at: int)
    requires
        0 <= at < s.len(),
    ensures
        match field_at_front(s.skip(at)) {
            Err(e) => fields_of(s.skip(at)) == Err::<Seq<WireField>, ProtoError>(e),
            Ok((f, n)) => 0 < n <= s.len() - at && match fields_of(s.skip(at + n)) {
                Err(e) => fields_of(s.skip(at)) == Err::<Seq<WireField>, ProtoError>(e),
                Ok(rest) => fields_of(s.skip(at)) == Ok::<Seq<WireField>, ProtoError>(
                    seq![f] + rest,
                ),
            },
        },
{
    lemma_field_len(s.skip(at));
    if let Ok((f, n)) = field_at_front(s.skip(at)) {
        assert(s.skip(at).skip(n as int) =~= s.skip(at + n));
    }
}

/// Copies the `n` bytes of `buf` that start at `pos`; gives where they end too.
fn take_bytes(buf: &[u8], pos: usize, n: u64) -> (r: Result<(Vec<u8>, usize), ProtoError>)
    requires
        pos <= buf@.len(),
    ensures
        match r {
            Ok((b, next)) => next == pos + n && next <= buf@.len() && b@ == buf@.skip(
                pos as int,
            ).take(n as int),
            Err(e) => n > buf@.len() - pos && e == ProtoError::Io(IoErrorKind::UnexpectedEof),
        },
{
    if n > (buf.len() - pos) as u64 {
        return Err(ProtoError::Io(IoErrorKind::UnexpectedEof));
    }
    let next: usize = pos + n as usize;
    let b = vstd::slice::slice_to_vec(vstd::slice::slice_subrange(buf, pos, next));
    assert(b@ =~= buf@.skip(pos as int).take(n as int));
    Ok((b, next))
}

/// Reads the field that starts at `pos`; gives it and where it ends.
fn read_field(buf: &[u8], pos: usize) -> (r: Result<(Field, usize), ProtoError>)
    requires
        pos <= buf@.len(),
    ensures
        match r {
            Ok((f, next)) => pos < next <= buf@.len() && field_at_front(buf@.skip(pos as int))
                == Ok::<(WireField, nat), ProtoError>((f@, (next - pos) as nat)),
            Err(e) => field_at_front(buf@.skip(pos as int)) == Err::<
                (WireField, nat),
                ProtoError,
            >(e),
        },
{
    let (tag, body) = match read_varint(buf, pos) {
        Ok(r) => r,
        Err(e) => return Err(e),
    };
    assert((tag >> 3) as u32 == (tag / 8) % 0x1_0000_0000 && (tag & 0x7) as u32 == tag % 8)
        by (bit_vector);
    let number: u32 = (tag >> 3) as u32;
    let wire_type: u32 = (tag & 0x7) as u32;
    assert(buf@.skip(pos as int).skip(body - pos) =~= buf@.skip(body as int));
    let (data, next): (Vec<u8>, usize) = match wire_type {
        0 => match read_varint(buf, body) {
            Ok((v, next)) => {
                let mut tmp: Vec<u8> = Vec::new();
                write_varint(&mut tmp, v);
                assert(tmp@ =~= varint(v as nat));
                (tmp, next)
            },
            Err(e) => return Err(e),
        },
        1 => match take_bytes(buf, body, 8) {
            Ok(r) => r,
            Err(e) => return Err(e),
        },
        2 => match read_varint(buf, body) {
            Ok((len, start)) => {
                assert(buf@.skip(body as int).skip(start - body) =~= buf@.skip(start as int));
                match take_bytes(buf, start, len) {
                    Ok(r) => r,
                    Err(e) => return Err(e),
                }
            },
            Err(e) => return Err(e),
        },
        5 => match take_bytes(buf, body, 4) {
            Ok(r) => r,
            Err(e) => return Err(e),
        },
        _ => return Err(ProtoError::InvalidWireType),
    };
    Ok((Field { number, wire_type, data }, next))
}

/// The views of the fields of a parsed message.
pub(crate) open spec fn views(fields: Seq<Field>) -> Seq<WireField> {
    fields.map_values(|f: Field| f@)
}

pub(crate) fn parse_message(buf: &[u8]) -> (r: Result<Vec<Field>, ProtoError>)
    ensures
        match r {
            Ok(fields) => fields_of(buf@) == Ok::<Seq<WireField>, ProtoError>(views(fields@)),
            Err(e) => fields_of(buf@) == Err::<Seq<WireField>, ProtoError>(e),
        },
{
    let mut fields: Vec<Field> = Vec::new();
    let mut pos: usize = 0;
    assert(buf@.skip(0) =~= buf@);
    assert(views(fields@) =~= Seq::<WireField>::empty());
    assert(fields_of(buf@) matches Ok(rest) ==> rest =~= views(fields@) + rest);
    while pos < buf.len()
        invariant
            pos <= buf@.len(),
            match fields_of(buf@.skip(pos as int)) {
                Ok(rest) => fields_of(buf@) == Ok::<Seq<WireField>, ProtoError>(
                    views(fields@) + rest,
                ),
                Err(e) => fields_of(buf@) == Err::<Seq<WireField>, ProtoError>(e),
            },
        decreases buf@.len() - pos,
    {
        proof {
            lemma_fields_step(buf@, pos as int);
        }
        match read_field(buf, pos) {
            Ok((f, next)) => {
                let ghost before = fields@;
                let ghost g = f@;
                fields.push(f);
                assert(views(fields@) =~= views(before).push(g));
                proof {
                    if let Ok(rest) = fields_of(buf@.skip(next as int)) {
                        assert(views(before) + (seq![g] + rest) =~= views(fields@) + rest);
                    }
                }
                pos = next;
            },
            Err(e) => return Err(e),
        }
    }
    assert(views(fields@) + Seq::<WireField>::empty() =~= views(fields@));
    Ok(fields)
}

/// Decodes UTF-8 bytes: `None` where they are not valid.
///
/// Calls `String::from_utf8`, and claims that it accepts exactly the valid UTF-8
/// byte strings and gives the characters that they encode.
#[verifier::external_body]
fn string_from_utf8(bytes: Vec<u8>) -> (r: Option<String>)
    ensures
        r is Some <==> valid_utf8(bytes@),
        r matches Some(s) ==> s@ == decode_utf8(bytes@),
{
    String::from_utf8(bytes).ok()
}

pub(crate) fn field_as_string(f: &Field) -> (r: Option<String>)
    ensures
        match r {
            Some(s) => text_of(f@) == Some(s@),
            None => text_of(f@) is None,
        },
{
    if f.wire_type == 2 {
        string_from_utf8(f.data.clone())
    } else {
        None
    }
}

pub(crate) fn field_as_bytes(f: &Field) -> (r: Option<Vec<u8>>)
    ensures
        match r {
            Some(b) => bytes_of(f@) == Some(b@),
            None => bytes_of(f@) is None,
        },
{
    if f.wire_type == 2 {
        Some(f.data.clone())
    } else {
        None
    }
}

pub(crate) fn field_as_varint(f: &Field) -> (r: Option<u64>)
    ensures
        r == varint_of(f@),
{
    if f.wire_type == 0 {
        assert(f.data@.skip(0) =~= f.data@);
        match read_varint(f.data.as_slice(), 0) {
            Ok((v, _)) => Some(v),
            Err(_) => None,
        }
    } else {
        None
    }
}

pub(crate) fn field_as_int32(f: &Field) -> (r: Option<i32>)
    ensures
        r == int32_of(f@),
{
    match field_as_varint(f) {
        Some(v) => Some(v as i32),
        None => None,
    }
}

/// 128 to the power `k`.
spec fn digits(k: nat) -> nat
    decreases k,
{
    if k == 0 {
        1
    } else {
        128 * digits((k - 1) as nat)
    }
}

proof fn lemma_scan_of_varint(v: nat, k: nat, rest: Seq<u8>)
    requires
        k > 0,
        v < digits(k),
    ensures
        scan_varint(varint(v) + rest, k) == Ok::<(nat, nat), ProtoError>((v, varint(v).len())),
    decreases k,
{
    let s = varint(v) + rest;
    if v < 128 {
        assert(s[0] == v as u8);
    } else {
        assert(v / 128 < digits((k - 1) as nat)) by (nonlinear_arith)
            requires
                v < 128 * digits((k - 1) as nat),
        ;
        assert(k > 1) by {
            reveal_with_fuel(digits, 2);
        }
        lemma_scan_of_varint(v / 128, (k - 1) as nat, rest);
        assert(s[0] == (v % 128 + 128) as u8);
        assert(s.skip(1) =~= varint(v / 128) + rest);
    }
}

/// A varint reads back as the number that it was written for, and takes all of
/// its bytes and none of those behind it.
pub proof fn varint_round_trip(v: u64, rest: Seq<u8>)
    ensures
        varint_at_front(varint(v as nat) + rest) == Ok::<(u64, nat), ProtoError>(
            (v, varint(v as nat).len()),
        ),
        0 < varint(v as nat).len() <= MAX_VARINT_LEN,
{
    reveal_with_fuel(digits, 11);
    lemma_scan_of_varint(v as nat, MAX_VARINT_LEN as nat, rest);
    lemma_scan_limit(varint(v as nat) + rest, MAX_VARINT_LEN as nat);
}

proof fn lemma_scan_limit(s: Seq<u8>, limit: nat)
    ensures
        scan_varint(s, limit) matches Ok((v, n)) ==> 0 < n <= limit,
    decreases limit,
{
    if limit > 0 && s.len() > 0 && s[0] >= 128 {
        lemma_scan_limit(s.skip(1), (limit - 1) as nat);
    }
}

/// Whether a field is one that the encoder writes: a varint in shortest form,
/// or bytes whose number fits 64 bits.
pub open spec fn writable(f: WireField) -> bool {
    ||| f.wire_type == 0 && exists|v: u64| f.data == #[trigger] varint(v as nat)
    ||| f.wire_type == 2 && f.data.len() <= u64::MAX
}

/// A written field reads back unchanged, whatever stands behind it.
pub proof fn field_round_trip(f: WireField, rest: Seq<u8>)
    requires
        writable(f),
    ensures
        field_at_front(encode_field(f) + rest) == Ok::<(WireField, nat), ProtoError>(
            (f, encode_field(f).len()),
        ),
{
    if f.wire_type == 0 {
        let v = choose|v: u64| f.data == #[trigger] varint(v as nat);
        lemma_varint_field_back(f.number, v, rest);
    } else {
        lemma_bytes_field_back(f.number, f.data, rest);
    }
}

/// A tag reads back as the number and the wire type that it was written for.
proof fn lemma_tag(number: u32, wire_type: u32, s: Seq<u8>, rest: Seq<u8>)
    requires
        wire_type < 8,
        s == varint((number * 8 + wire_type) as nat) + rest,
    ensures
        varint_at_front(s) matches Ok((tag, n)) && tag / 8 == number && tag % 8 == wire_type && n
            == varint((number * 8 + wire_type) as nat).len() && s.skip(n as int) == rest,
{
    let tag = (number * 8 + wire_type) as u64;
    varint_round_trip(tag, rest);
    assert(s.skip(varint(tag as nat).len() as int) =~= rest);
}

/// The field that starts with the tag of a varint, and goes on with one.
proof fn lemma_varint_body(s: Seq<u8>, number: u32, tag: u64, n: nat, v: u64, m: nat)
    requires
        varint_at_front(s) == Ok::<(u64, nat), ProtoError>((tag, n)),
        tag / 8 == number,
        tag % 8 == 0,
        varint_at_front(s.skip(n as int)) == Ok::<(u64, nat), ProtoError>((v, m)),
    ensures
        field_at_front(s) == Ok::<(WireField, nat), ProtoError>(
            (varint_field(number, v as nat), n + m),
        ),
{
}

#[verifier::spinoff_prover]
proof fn lemma_varint_field_back(number: u32, v: u64, rest: Seq<u8>)
    ensures
        field_at_front(encode_field(varint_field(number, v as nat)) + rest) == Ok::<
            (WireField, nat),
            ProtoError,
        >((varint_field(number, v as nat), encode_field(varint_field(number, v as nat)).len())),
{
    let f = varint_field(number, v as nat);
    let s = encode_field(f) + rest;
    let data = varint(v as nat);
    let front = varint((number * 8 + 0u32) as nat);
    assert(encode_field(f) =~= front + data);
    assert(s =~= front + (data + rest));
    lemma_tag(number, 0, s, data + rest);
    varint_round_trip(v, rest);
    let tag = varint_at_front(s)->Ok_0.0;
    lemma_varint_body(s, number, tag, front.len(), v, data.len());
}

#[verifier::spinoff_prover]
proof fn lemma_bytes_field_back(number: u32, data: Seq<u8>, rest: Seq<u8>)
    requires
        data.len() <= u64::MAX,
    ensures
        field_at_front(encode_field(bytes_field(number, data)) + rest) == Ok::<
            (WireField, nat),
            ProtoError,
        >((bytes_field(number, data), encode_field(bytes_field(number, data)).len())),
{
    let f = bytes_field(number, data);
    let s = encode_field(f) + rest;
    let len = data.len() as u64;
    let l = varint(len as nat);
    assert(s =~= varint((number * 8 + 2u32) as nat) + (l + (data + rest)));
    lemma_tag(number, 2, s, l + (data + rest));
    varint_round_trip(len, data + rest);
    assert((l + (data + rest)).skip(l.len() as int) =~= data + rest);
    assert((data + rest).take(len as int) =~= data);
}

proof fn lemma_encode_front(fields: Seq<WireField>)
    requires
        fields.len() > 0,
    ensures
        encode_fields(fields) == encode_field(fields[0]) + encode_fields(fields.skip(1)),
    decreases fields.len(),
{
    if fields.len() == 1 {
        assert(fields.drop_last() =~= Seq::empty());
        assert(fields.skip(1) =~= Seq::empty());
        assert(encode_fields(fields) =~= encode_field(fields[0]) + encode_fields(fields.skip(1)));
    } else {
        lemma_encode_front(fields.drop_last());
        assert(fields.drop_last().skip(1) =~= fields.skip(1).drop_last());
        assert(encode_fields(fields) =~= encode_field(fields[0]) + (encode_fields(
            fields.skip(1).drop_last(),
        ) + encode_field(fields.last())));
    }
}

/// The fields of a message read back in the order and with the contents in which
/// they were written.
pub proof fn fields_round_trip(fields: Seq<WireField>)
    requires
        forall|i: int| 0 <= i < fields.len() ==> writable(#[trigger] fields[i]),
    ensures
        fields_of(encode_fields(fields)) == Ok::<Seq<WireField>, ProtoError>(fields),
    decreases fields.len(),
{
    let s = encode_fields(fields);
    if fields.len() == 0 {
        assert(fields =~= Seq::empty());
    } else {
        let tail = fields.skip(1);
        lemma_encode_front(fields);
        field_round_trip(fields[0], encode_fields(tail));
        lemma_field_len(s);
        let n = encode_field(fields[0]).len() as int;
        assert(s.skip(n) =~= encode_fields(tail));
        assert forall|i: int| 0 <= i < tail.len() implies writable(#[trigger] tail[i]) by {
            assert(tail[i] == fields[i + 1]);
        }
        fields_round_trip(tail);
        assert(seq![fields[0]] + tail =~= fields);
    }
}

/// What the accessors give of each kind of field that the encoder writes.
pub proof fn field_values(number: u32, text: Seq<char>, b: Seq<u8>, v: i32, flag: bool)
    ensures
        text_of(string_field(number, text)) == Some(text),
        bytes_of(bytes_field(number, b)) == Some(b),
        int32_of(int32_field(number, v)) == Some(v),
        varint_of(bool_field(number, flag)) == Some(if flag { 1u64 } else { 0u64 }),
        varint_of(int32_field(number, v)) == Some(v as u64),
        bytes_of(string_field(number, text)) == Some(encode_utf8(text)),
        writable(int32_field(number, v)),
        writable(bool_field(number, flag)),
{
    encode_utf8_valid_utf8(text);
    encode_utf8_decode_utf8(text);
    let u = v as u64;
    assert((v as u64) as i32 == v) by (bit_vector);
    varint_round_trip(u, Seq::empty());
    assert(varint(u as nat) + Seq::<u8>::empty() =~= varint(u as nat));
    let w: u64 = if flag { 1 } else { 0 };
    varint_round_trip(w, Seq::empty());
    assert(varint(w as nat) + Seq::<u8>::empty() =~= varint(w as nat));
}

} // verus!

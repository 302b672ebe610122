//! The messages of a terminal session.

use vstd::prelude::*;

use super::message;
use super::message::{MessageSpec, ProtoMessage};
use super::wire;
use super::wire::{ProtoError, WireField};

verus! {

/// Bytes that were typed, or that the remote terminal put out.
#[derive(Debug, Clone)]
pub struct TerminalBuffer {
    pub buffer: Option<Vec<u8>>,
}

pub struct TerminalBufferView {
    pub buffer: Option<Seq<u8>>,
}

impl View for TerminalBuffer {
    type V = TerminalBufferView;

    open spec fn view(&self) -> TerminalBufferView {
        TerminalBufferView {
            buffer: message::opt_view(self.buffer),
        }
    }
}

impl Default for TerminalBuffer {
    fn default() -> (r: Self)
        ensures
            r@ == Self::empty(),
    {
        TerminalBuffer { buffer: None }
    }
}

impl MessageSpec for TerminalBuffer {
    open spec fn empty() -> TerminalBufferView {
        TerminalBufferView { buffer: None }
    }

    open spec fn fields(v: TerminalBufferView) -> Seq<WireField> {
        message::optional_bytes(1, v.buffer)
    }

    open spec fn apply(v: TerminalBufferView, f: WireField) -> Result<TerminalBufferView, ProtoError> {
        if f.number == 1 {
            Ok(TerminalBufferView { buffer: wire::bytes_of(f) })
        } else {
            Ok(v)
        }
    }

    open spec fn valid(v: TerminalBufferView) -> bool {
        true
    }

    open spec fn delivered(v: TerminalBufferView) -> TerminalBufferView {
        v
    }
}

impl ProtoMessage for TerminalBuffer {
    fn encode(&self) -> Vec<u8> {
        let mut out: Vec<u8> = Vec::new();
        message::put_optional_bytes(&mut out, 1, &self.buffer);
        proof {
            let a = message::optional_bytes(1, self@.buffer);
            assert(out@ =~= wire::encode_fields(a));
        }
        out
    }

    fn decode(bytes: &[u8]) -> (r: Result<Self, ProtoError>) {
        let mut msg = TerminalBuffer::default();
        let fields = match wire::parse_message(bytes) {
            Ok(fields) => fields,
            Err(e) => return Err(e),
        };
        let ghost all = wire::views(fields@);
        let mut i: usize = 0;
        while i < fields.len()
            invariant
                i <= fields@.len(),
                all == wire::views(fields@),
                message::collect::<Self>(all.take(i as int)) == Ok::<TerminalBufferView, ProtoError>(
                    msg@,
                ),
            decreases fields@.len() - i,
        {
            let f = &fields[i];
            proof {
                message::lemma_collect_next::<Self>(all, i as int);
            }
            if f.number == 1 {
                msg.buffer = wire::field_as_bytes(f);
            }
            i += 1;
        }
        assert(all.take(i as int) =~= all);
        Ok(msg)
    }

    proof fn round_trip(v: TerminalBufferView) {
        let a = message::optional_bytes(1, v.buffer);
        if let Some(x) = v.buffer {
            wire::field_values(1, Seq::empty(), x, 0, false);
        }
        message::lemma_fields_back(a);
        message::lemma_collect_optional::<Self>(Seq::empty(), a);
        assert(Seq::<WireField>::empty() + a =~= a);
    }
}

/// The size of the terminal, in characters and in pixels.
#[derive(Debug, Clone, PartialEq, Eq)]
pub struct TerminalInfo {
    pub id: Option<String>,
    pub row: Option<i32>,
    pub column: Option<i32>,
    pub width: Option<i32>,
    pub height: Option<i32>,
}

pub struct TerminalInfoView {
    pub id: Option<Seq<char>>,
    pub row: Option<i32>,
    pub column: Option<i32>,
    pub width: Option<i32>,
    pub height: Option<i32>,
}

impl View for TerminalInfo {
    type V = TerminalInfoView;

    open spec fn view(&self) -> TerminalInfoView {
        TerminalInfoView {
            id: message::opt_view(self.id),
            row: self.row,
            column: self.column,
            width: self.width,
            height: self.height,
        }
    }
}

impl Default for TerminalInfo {
    fn default() -> (r: Self)
        ensures
            r@ == Self::empty(),
    {
        TerminalInfo { id: None, row: None, column: None, width: None, height: None }
    }
}

impl MessageSpec for TerminalInfo {
    open spec fn empty() -> TerminalInfoView {
        TerminalInfoView { id: None, row: None, column: None, width: None, height: None }
    }

    open spec fn fields(v: TerminalInfoView) -> Seq<WireField> {
        message::optional_string(1, v.id)
            + message::optional_int32(2, v.row)
            + message::optional_int32(3, v.column)
            + message::optional_int32(4, v.width)
            + message::optional_int32(5, v.height)
    }

    open spec fn apply(v: TerminalInfoView, f: WireField) -> Result<TerminalInfoView, ProtoError> {
        if f.number == 1 {
            Ok(TerminalInfoView { id: wire::text_of(f), ..v })
        } else if f.number == 2 {
            Ok(TerminalInfoView { row: wire::int32_of(f), ..v })
        } else if f.number == 3 {
            Ok(TerminalInfoView { column: wire::int32_of(f), ..v })
        } else if f.number == 4 {
            Ok(TerminalInfoView { width: wire::int32_of(f), ..v })
        } else if f.number == 5 {
            Ok(TerminalInfoView { height: wire::int32_of(f), ..v })
        } else {
            Ok(v)
        }
    }

    open spec fn valid(v: TerminalInfoView) -> bool {
        true
    }

    open spec fn delivered(v: TerminalInfoView) -> TerminalInfoView {
        v
    }
}

impl ProtoMessage for TerminalInfo {
    fn encode(&self) -> Vec<u8> {
        let mut out: Vec<u8> = Vec::new();
        message::put_optional_string(&mut out, 1, &self.id);
        message::put_optional_int32(&mut out, 2, self.row);
        message::put_optional_int32(&mut out, 3, self.column);
        message::put_optional_int32(&mut out, 4, self.width);
        message::put_optional_int32(&mut out, 5, self.height);
        proof {
            let a = message::optional_string(1, self@.id);
            let b = message::optional_int32(2, self@.row);
            let c = message::optional_int32(3, self@.column);
            let d = message::optional_int32(4, self@.width);
            let e = message::optional_int32(5, self@.height);
            message::lemma_encode_concat(a, b);
            message::lemma_encode_concat(a + b, c);
            message::lemma_encode_concat(a + b + c, d);
            message::lemma_encode_concat(a + b + c + d, e);
            assert(out@ =~= wire::encode_fields(a)
                + wire::encode_fields(b)
                + wire::encode_fields(c)
                + wire::encode_fields(d)
                + wire::encode_fields(e));
        }
        out
    }

    fn decode(bytes: &[u8]) -> (r: Result<Self, ProtoError>) {
        let mut msg = TerminalInfo::default();
        let fields = match wire::parse_message(bytes) {
            Ok(fields) => fields,
            Err(e) => return Err(e),
        };
        let ghost all = wire::views(fields@);
        let mut i: usize = 0;
        while i < fields.len()
            invariant
                i <= fields@.len(),
                all == wire::views(fields@),
                message::collect::<Self>(all.take(i as int)) == Ok::<TerminalInfoView, ProtoError>(
                    msg@,
                ),
            decreases fields@.len() - i,
        {
            let f = &fields[i];
            proof {
                message::lemma_collect_next::<Self>(all, i as int);
            }
            match f.number {
                1 => msg.id = wire::field_as_string(f),
                2 => msg.row = wire::field_as_int32(f),
                3 => msg.column = wire::field_as_int32(f),
                4 => msg.width = wire::field_as_int32(f),
                5 => msg.height = wire::field_as_int32(f),
                _ => {},
            }
            i += 1;
        }
        assert(all.take(i as int) =~= all);
        Ok(msg)
    }

    proof fn round_trip(v: TerminalInfoView) {
        let a = message::optional_string(1, v.id);
        let b = message::optional_int32(2, v.row);
        let c = message::optional_int32(3, v.column);
        let d = message::optional_int32(4, v.width);
        let e = message::optional_int32(5, v.height);
        if let Some(x) = v.id {
            wire::field_values(1, x, Seq::empty(), 0, false);
        }
        if let Some(x) = v.row {
            wire::field_values(2, Seq::empty(), Seq::empty(), x, false);
        }
        if let Some(x) = v.column {
            wire::field_values(3, Seq::empty(), Seq::empty(), x, false);
        }
        if let Some(x) = v.width {
            wire::field_values(4, Seq::empty(), Seq::empty(), x, false);
        }
        if let Some(x) = v.height {
            wire::field_values(5, Seq::empty(), Seq::empty(), x, false);
        }
        message::lemma_fields_back(a + b + c + d + e);
        message::lemma_collect_optional::<Self>(Seq::empty(), a);
        assert(Seq::<WireField>::empty() + a =~= a);
        message::lemma_collect_optional::<Self>(a, b);
        message::lemma_collect_optional::<Self>(a + b, c);
        message::lemma_collect_optional::<Self>(a + b + c, d);
        message::lemma_collect_optional::<Self>(a + b + c + d, e);
    }
}

} // verus!

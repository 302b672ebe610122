//! The messages by which a connection is opened and recovered.

use vstd::prelude::*;

use super::message;
use super::message::{MessageSpec, ProtoMessage};
use super::wire;
use super::wire::{ProtoError, WireField};

verus! {

/// How the server answers a [`ConnectRequest`].
#[derive(Debug, Clone, Copy, PartialEq, Eq, Structural)]
pub enum ConnectStatus {
    NewClient,
    ReturningClient,
    InvalidKey,
    MismatchedProtocol,
}

/// The number of a status on the wire.
pub open spec fn status_number(s: ConnectStatus) -> i32 {
    match s {
        ConnectStatus::NewClient => 1,
        ConnectStatus::ReturningClient => 2,
        ConnectStatus::InvalidKey => 3,
        ConnectStatus::MismatchedProtocol => 4,
    }
}

/// The status that a number on the wire stands for.
pub open spec fn status_of(v: i32) -> Option<ConnectStatus> {
    if v == 1 {
        Some(ConnectStatus::NewClient)
    } else if v == 2 {
        Some(ConnectStatus::ReturningClient)
    } else if v == 3 {
        Some(ConnectStatus::InvalidKey)
    } else if v == 4 {
        Some(ConnectStatus::MismatchedProtocol)
    } else {
        None
    }
}

impl ConnectStatus {
    pub fn from_i32(v: i32) -> (r: Option<Self>)
        ensures
            r == status_of(v),
            forall|s: ConnectStatus| r == Some(s) <==> v == #[trigger] status_number(s),
    {
        match v {
            1 => Some(ConnectStatus::NewClient),
            2 => Some(ConnectStatus::ReturningClient),
            3 => Some(ConnectStatus::InvalidKey),
            4 => Some(ConnectStatus::MismatchedProtocol),
            _ => None,
        }
    }

    /// The number of the status on the wire.
    pub fn to_i32(self) -> (r: i32)
        ensures
            r == status_number(self),
    {
        match self {
            ConnectStatus::NewClient => 1,
            ConnectStatus::ReturningClient => 2,
            ConnectStatus::InvalidKey => 3,
            ConnectStatus::MismatchedProtocol => 4,
        }
    }
}

/// The first message of a client: who it is, and which protocol it speaks.
#[derive(Debug, Clone)]
pub struct ConnectRequest {
    pub client_id: Option<String>,
    pub version: Option<i32>,
}

pub struct ConnectRequestView {
    pub client_id: Option<Seq<char>>,
    pub version: Option<i32>,
}

impl View for ConnectRequest {
    type V = ConnectRequestView;

    open spec fn view(&self) -> ConnectRequestView {
        ConnectRequestView {
            client_id: message::opt_view(self.client_id),
            version: self.version,
        }
    }
}

impl Default for ConnectRequest {
    fn default() -> (r: Self)
        ensures
            r@ == Self::empty(),
    {
        ConnectRequest { client_id: None, version: None }
    }
}

impl MessageSpec for ConnectRequest {
    open spec fn empty() -> ConnectRequestView {
        ConnectRequestView { client_id: None, version: None }
    }

    open spec fn fields(v: ConnectRequestView) -> Seq<WireField> {
        message::optional_string(1, v.client_id)
            + message::optional_int32(2, v.version)
    }

    open spec fn apply(v: ConnectRequestView, f: WireField) -> Result<ConnectRequestView, ProtoError> {
        if f.number == 1 {
            Ok(ConnectRequestView { client_id: wire::text_of(f), ..v })
        } else if f.number == 2 {
            Ok(ConnectRequestView { version: wire::int32_of(f), ..v })
        } else {
            Ok(v)
        }
    }

    open spec fn valid(v: ConnectRequestView) -> bool {
        true
    }

    open spec fn delivered(v: ConnectRequestView) -> ConnectRequestView {
        v
    }
}

impl ProtoMessage for ConnectRequest {
    fn encode(&self) -> Vec<u8> {
        let mut out: Vec<u8> = Vec::new();
        message::put_optional_string(&mut out, 1, &self.client_id);
        message::put_optional_int32(&mut out, 2, self.version);
        proof {
            let a = message::optional_string(1, self@.client_id);
            let b = message::optional_int32(2, self@.version);
            message::lemma_encode_concat(a, b);
            assert(out@ =~= wire::encode_fields(a)
                + wire::encode_fields(b));
        }
        out
    }

    fn decode(bytes: &[u8]) -> (r: Result<Self, ProtoError>) {
        let mut msg = ConnectRequest::default();
        let fields = match wire::parse_message(bytes) {
            Ok(fields) => fields,
            Err(e) => return Err(e),
        };
        let ghost all = wire::views(fields@);
        let mut i: usize = 0;
        while i < fields.len()
            invariant
                i <= fields@.len(),
                all == wire::views(fields@),
                message::collect::<Self>(all.take(i as int)) == Ok::<ConnectRequestView, ProtoError>(
                    msg@,
                ),
            decreases fields@.len() - i,
        {
            let f = &fields[i];
            proof {
                message::lemma_collect_next::<Self>(all, i as int);
            }
            match f.number {
                1 => msg.client_id = wire::field_as_string(f),
                2 => msg.version = wire::field_as_int32(f),
                _ => {},
            }
            i += 1;
        }
        assert(all.take(i as int) =~= all);
        Ok(msg)
    }

    proof fn round_trip(v: ConnectRequestView) {
        let a = message::optional_string(1, v.client_id);
        let b = message::optional_int32(2, v.version);
        if let Some(x) = v.client_id {
            wire::field_values(1, x, Seq::empty(), 0, false);
        }
        if let Some(x) = v.version {
            wire::field_values(2, Seq::empty(), Seq::empty(), x, false);
        }
        message::lemma_fields_back(a + b);
        message::lemma_collect_optional::<Self>(Seq::empty(), a);
        assert(Seq::<WireField>::empty() + a =~= a);
        message::lemma_collect_optional::<Self>(a, b);
    }
}

/// The number of an optional status on the wire.
pub open spec fn optional_status(o: Option<ConnectStatus>) -> Option<i32> {
    match o {
        Some(s) => Some(status_number(s)),
        None => None,
    }
}

/// The answer to a [`ConnectRequest`].
#[derive(Debug, Clone)]
pub struct ConnectResponse {
    pub status: Option<ConnectStatus>,
    pub error: Option<String>,
}

pub struct ConnectResponseView {
    pub status: Option<ConnectStatus>,
    pub error: Option<Seq<char>>,
}

impl View for ConnectResponse {
    type V = ConnectResponseView;

    open spec fn view(&self) -> ConnectResponseView {
        ConnectResponseView {
            status: self.status,
            error: message::opt_view(self.error),
        }
    }
}

impl Default for ConnectResponse {
    fn default() -> (r: Self)
        ensures
            r@ == Self::empty(),
    {
        ConnectResponse { status: None, error: None }
    }
}

impl MessageSpec for ConnectResponse {
    open spec fn empty() -> ConnectResponseView {
        ConnectResponseView { status: None, error: None }
    }

    open spec fn fields(v: ConnectResponseView) -> Seq<WireField> {
        message::optional_int32(1, optional_status(v.status))
            + message::optional_string(2, v.error)
    }

    open spec fn apply(v: ConnectResponseView, f: WireField) -> Result<ConnectResponseView, ProtoError> {
        if f.number == 1 {
            match wire::int32_of(f) {
                Some(s) => Ok(ConnectResponseView { status: status_of(s), ..v }),
                None => Ok(v),
            }
        } else if f.number == 2 {
            Ok(ConnectResponseView { error: wire::text_of(f), ..v })
        } else {
            Ok(v)
        }
    }

    open spec fn valid(v: ConnectResponseView) -> bool {
        true
    }

    open spec fn delivered(v: ConnectResponseView) -> ConnectResponseView {
        v
    }
}

impl ProtoMessage for ConnectResponse {
    fn encode(&self) -> Vec<u8> {
        let mut out: Vec<u8> = Vec::new();
        let status: Option<i32> = match self.status {
            Some(s) => Some(s.to_i32()),
            None => None,
        };
        message::put_optional_int32(&mut out, 1, status);
        message::put_optional_string(&mut out, 2, &self.error);
        proof {
            let a = message::optional_int32(1, optional_status(self@.status));
            let b = message::optional_string(2, self@.error);
            message::lemma_encode_concat(a, b);
            assert(out@ =~= wire::encode_fields(a)
                + wire::encode_fields(b));
        }
        out
    }

    fn decode(bytes: &[u8]) -> (r: Result<Self, ProtoError>) {
        let mut msg = ConnectResponse::default();
        let fields = match wire::parse_message(bytes) {
            Ok(fields) => fields,
            Err(e) => return Err(e),
        };
        let ghost all = wire::views(fields@);
        let mut i: usize = 0;
        while i < fields.len()
            invariant
                i <= fields@.len(),
                all == wire::views(fields@),
                message::collect::<Self>(all.take(i as int)) == Ok::<ConnectResponseView, ProtoError>(
                    msg@,
                ),
            decreases fields@.len() - i,
        {
            let f = &fields[i];
            proof {
                message::lemma_collect_next::<Self>(all, i as int);
            }
            match f.number {
                1 => {
                    if let Some(v) = wire::field_as_int32(f) {
                        msg.status = ConnectStatus::from_i32(v);
                    }
                },
                2 => msg.error = wire::field_as_string(f),
                _ => {},
            }
            i += 1;
        }
        assert(all.take(i as int) =~= all);
        Ok(msg)
    }

    proof fn round_trip(v: ConnectResponseView) {
        let a = message::optional_int32(1, optional_status(v.status));
        let b = message::optional_string(2, v.error);
        if let Some(x) = v.status {
            wire::field_values(1, Seq::empty(), Seq::empty(), status_number(x), false);
        }
        if let Some(x) = v.error {
            wire::field_values(2, x, Seq::empty(), 0, false);
        }
        message::lemma_fields_back(a + b);
        message::lemma_collect_optional::<Self>(Seq::empty(), a);
        assert(Seq::<WireField>::empty() + a =~= a);
        message::lemma_collect_optional::<Self>(a, b);
    }
}

/// How many packets the sender has received so far.
#[derive(Debug, Clone)]
pub struct SequenceHeader {
    pub sequence_number: Option<i32>,
}

pub struct SequenceHeaderView {
    pub sequence_number: Option<i32>,
}

impl View for SequenceHeader {
    type V = SequenceHeaderView;

    open spec fn view(&self) -> SequenceHeaderView {
        SequenceHeaderView {
            sequence_number: self.sequence_number,
        }
    }
}

impl Default for SequenceHeader {
    fn default() -> (r: Self)
        ensures
            r@ == Self::empty(),
    {
        SequenceHeader { sequence_number: None }
    }
}

impl MessageSpec for SequenceHeader {
    open spec fn empty() -> SequenceHeaderView {
        SequenceHeaderView { sequence_number: None }
    }

    open spec fn fields(v: SequenceHeaderView) -> Seq<WireField> {
        message::optional_int32(1, v.sequence_number)
    }

    open spec fn apply(v: SequenceHeaderView, f: WireField) -> Result<SequenceHeaderView, ProtoError> {
        if f.number == 1 {
            Ok(SequenceHeaderView { sequence_number: wire::int32_of(f) })
        } else {
            Ok(v)
        }
    }

    open spec fn valid(v: SequenceHeaderView) -> bool {
        true
    }

    open spec fn delivered(v: SequenceHeaderView) -> SequenceHeaderView {
        v
    }
}

impl ProtoMessage for SequenceHeader {
    fn encode(&self) -> Vec<u8> {
        let mut out: Vec<u8> = Vec::new();
        message::put_optional_int32(&mut out, 1, self.sequence_number);
        proof {
            let a = message::optional_int32(1, self@.sequence_number);
            assert(out@ =~= wire::encode_fields(a));
        }
        out
    }

    fn decode(bytes: &[u8]) -> (r: Result<Self, ProtoError>) {
        let mut msg = SequenceHeader::default();
        let fields = match wire::parse_message(bytes) {
            Ok(fields) => fields,
            Err(e) => return Err(e),
        };
        let ghost all = wire::views(fields@);
        let mut i: usize = 0;
        while i < fields.len()
            invariant
                i <= fields@.len(),
                all == wire::views(fields@),
                message::collect::<Self>(all.take(i as int)) == Ok::<SequenceHeaderView, ProtoError>(
                    msg@,
                ),
            decreases fields@.len() - i,
        {
            let f = &fields[i];
            proof {
                message::lemma_collect_next::<Self>(all, i as int);
            }
            if f.number == 1 {
                msg.sequence_number = wire::field_as_int32(f);
            }
            i += 1;
        }
        assert(all.take(i as int) =~= all);
        Ok(msg)
    }

    proof fn round_trip(v: SequenceHeaderView) {
        let a = message::optional_int32(1, v.sequence_number);
        if let Some(x) = v.sequence_number {
            wire::field_values(1, Seq::empty(), Seq::empty(), x, false);
        }
        message::lemma_fields_back(a);
        message::lemma_collect_optional::<Self>(Seq::empty(), a);
        assert(Seq::<WireField>::empty() + a =~= a);
    }
}

/// Packets that the receiver has missed, each in its serialized form.
#[derive(Debug, Clone)]
pub struct CatchupBuffer {
    pub buffer: Vec<Vec<u8>>,
}

pub struct CatchupBufferView {
    pub buffer: Seq<Seq<u8>>,
}

impl View for CatchupBuffer {
    type V = CatchupBufferView;

    open spec fn view(&self) -> CatchupBufferView {
        CatchupBufferView { buffer: self.buffer@.map_values(|b: Vec<u8>| b@) }
    }
}

impl Default for CatchupBuffer {
    fn default() -> (r: Self)
        ensures
            r@ == Self::empty(),
    {
        let r = CatchupBuffer { buffer: Vec::new() };
        assert(r@.buffer =~= Seq::empty());
        r
    }
}

impl MessageSpec for CatchupBuffer {
    open spec fn empty() -> CatchupBufferView {
        CatchupBufferView { buffer: Seq::empty() }
    }

    open spec fn fields(v: CatchupBufferView) -> Seq<WireField> {
        message::repeated_bytes(1, v.buffer)
    }

    open spec fn apply(v: CatchupBufferView, f: WireField) -> Result<CatchupBufferView, ProtoError> {
        if f.number == 1 {
            match wire::bytes_of(f) {
                Some(b) => Ok(CatchupBufferView { buffer: v.buffer.push(b) }),
                None => Ok(v),
            }
        } else {
            Ok(v)
        }
    }

    open spec fn valid(v: CatchupBufferView) -> bool {
        true
    }

    open spec fn delivered(v: CatchupBufferView) -> CatchupBufferView {
        v
    }
}

proof fn lemma_catchup_back(items: Seq<Seq<u8>>)
    ensures
        message::collect::<CatchupBuffer>(message::repeated_bytes(1, items)) == Ok::<
            CatchupBufferView,
            ProtoError,
        >(CatchupBufferView { buffer: items }),
    decreases items.len(),
{
    let fields = message::repeated_bytes(1, items);
    if items.len() == 0 {
        assert(items =~= Seq::empty());
    } else {
        lemma_catchup_back(items.drop_last());
        assert(fields.drop_last() =~= message::repeated_bytes(1, items.drop_last()));
        assert(items.drop_last().push(items.last()) =~= items);
    }
}

impl ProtoMessage for CatchupBuffer {
    fn encode(&self) -> Vec<u8> {
        let mut out: Vec<u8> = Vec::new();
        let ghost items = self@.buffer;
        let mut i: usize = 0;
        assert(message::repeated_bytes(1, items.take(0)) =~= Seq::empty());
        while i < self.buffer.len()
            invariant
                i <= self.buffer@.len(),
                items == self@.buffer,
                out@ == wire::encode_fields(message::repeated_bytes(1, items.take(i as int))),
            decreases self.buffer@.len() - i,
        {
            let ghost done = message::repeated_bytes(1, items.take(i as int));
            wire::write_bytes(&mut out, 1, self.buffer[i].as_slice());
            proof {
                let next = message::repeated_bytes(1, items.take(i + 1));
                assert(next.drop_last() =~= done);
                assert(next.last() == wire::bytes_field(1, items[i as int]));
            }
            i += 1;
        }
        assert(items.take(i as int) =~= items);
        out
    }

    fn decode(bytes: &[u8]) -> (r: Result<Self, ProtoError>) {
        let mut msg = CatchupBuffer::default();
        let fields = match wire::parse_message(bytes) {
            Ok(fields) => fields,
            Err(e) => return Err(e),
        };
        let ghost all = wire::views(fields@);
        let mut i: usize = 0;
        while i < fields.len()
            invariant
                i <= fields@.len(),
                all == wire::views(fields@),
                message::collect::<Self>(all.take(i as int)) == Ok::<CatchupBufferView, ProtoError>(
                    msg@,
                ),
            decreases fields@.len() - i,
        {
            let f = &fields[i];
            proof {
                message::lemma_collect_next::<Self>(all, i as int);
            }
            if f.number == 1 {
                if let Some(b) = wire::field_as_bytes(f) {
                    let ghost before = msg@.buffer;
                    let ghost item = b@;
                    msg.buffer.push(b);
                    assert(msg@.buffer =~= before.push(item));
                }
            }
            i += 1;
        }
        assert(all.take(i as int) =~= all);
        Ok(msg)
    }

    proof fn round_trip(v: CatchupBufferView) {
        message::lemma_fields_back(message::repeated_bytes(1, v.buffer));
        lemma_catchup_back(v.buffer);
    }
}

} // verus!

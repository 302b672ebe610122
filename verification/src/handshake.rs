//! The exchange of messages by which a connection is opened, and opened again after it
//! is lost.
//!
//! A handshake makes no system calls. It says what is to be done with the new socket,
//! and is told what came of it.

use vstd::prelude::*;

use crate::backed::RecoverError;
use crate::byte_order;
use crate::byte_order::ByteOrder;
use crate::connection;
use crate::connection::{
    check_connect_response, check_reconnect_response, ClientConnection, ConnectError,
    ConnectErrorView, ConnectionView, RecoverOutcome,
};
use crate::crypto;
use crate::crypto::CryptoError;
use crate::proto::framing;
use crate::proto::framing::{read_proto_in, write_proto_in, ReadProtoError};
use crate::proto::handshake;
use crate::proto::handshake::{
    CatchupBufferView, ConnectRequestView, ConnectResponseView, SequenceHeaderView,
};
use crate::proto::message;
use crate::proto::message::MessageSpec;
use crate::proto::wire;
use crate::proto::{
    CatchupBuffer, ConnectRequest, ConnectResponse, ConnectStatus, ProtoMessage, SequenceHeader,
};

verus! {

/// Why a handshake failed.
#[derive(Debug, Clone)]
pub enum HandshakeError {
    /// A message of the server could not be read.
    Message(ReadProtoError),
    /// The server's answer does not allow the connection, or the passkey is not a key.
    Connect(ConnectError),
    /// What the server has missed cannot be sent again.
    Recover(RecoverError),
    /// The handshake was told of something that it did not wait for.
    OutOfTurn,
}

pub enum HandshakeErrorView {
    Message(ReadProtoError),
    Connect(ConnectErrorView),
    Recover(RecoverError),
    OutOfTurn,
}

impl View for HandshakeError {
    type V = HandshakeErrorView;

    open spec fn view(&self) -> HandshakeErrorView {
        match self {
            HandshakeError::Message(e) => HandshakeErrorView::Message(*e),
            HandshakeError::Connect(e) => HandshakeErrorView::Connect(e@),
            HandshakeError::Recover(e) => HandshakeErrorView::Recover(*e),
            HandshakeError::OutOfTurn => HandshakeErrorView::OutOfTurn,
        }
    }
}

/// What a handshake waits for.
#[derive(Debug, Clone, Copy, PartialEq, Eq, Structural)]
pub enum HandshakePhase {
    /// The start.
    Start,
    /// The request is being sent.
    Request,
    /// The answer to it is being received.
    Answer,
    /// The number of packets that have been received is being sent.
    Header,
    /// The number of packets that the server has received is being received.
    Remote,
    /// The packets that the server has missed are being sent.
    Outgoing,
    /// The packets that the client has missed are being received.
    Incoming,
    /// The socket is being made ready for the session.
    Ready,
    /// The end.
    Over,
}

/// What came of an action.
#[derive(Debug)]
pub enum HandshakeEvent {
    /// It has been done. Also starts the handshake.
    Done,
    /// A message of the server, behind its length.
    Received(Vec<u8>),
}

pub enum HandshakeEventView {
    Done,
    Received(Seq<u8>),
}

impl View for HandshakeEvent {
    type V = HandshakeEventView;

    open spec fn view(&self) -> HandshakeEventView {
        match self {
            HandshakeEvent::Done => HandshakeEventView::Done,
            HandshakeEvent::Received(b) => HandshakeEventView::Received(b@),
        }
    }
}

/// What a handshake wants done.
#[derive(Debug)]
pub enum HandshakeAction {
    /// Send these bytes.
    Send(Vec<u8>),
    /// Receive a message, behind its length.
    Receive,
    /// Make the socket ready for the session.
    MakeReady,
    /// Nothing: this is how it ended.
    Finished(RecoverOutcome),
    /// Nothing: it has failed.
    Fail(HandshakeError),
}

pub enum HandshakeActionView {
    Send(Seq<u8>),
    Receive,
    MakeReady,
    Finished(RecoverOutcome),
    Fail(HandshakeErrorView),
}

impl View for HandshakeAction {
    type V = HandshakeActionView;

    open spec fn view(&self) -> HandshakeActionView {
        match self {
            HandshakeAction::Send(b) => HandshakeActionView::Send(b@),
            HandshakeAction::Receive => HandshakeActionView::Receive,
            HandshakeAction::MakeReady => HandshakeActionView::MakeReady,
            HandshakeAction::Finished(outcome) => HandshakeActionView::Finished(*outcome),
            HandshakeAction::Fail(e) => HandshakeActionView::Fail(e@),
        }
    }
}

/// The state of a handshake.
#[verifier::ext_equal]
pub struct HandshakeView {
    /// Whether the connection is opened for the first time.
    pub first: bool,
    /// The byte order in which lengths are sent.
    pub order: ByteOrder,
    pub phase: HandshakePhase,
    /// The server's answer to the request.
    pub answer: ConnectResponseView,
    /// The packets that the client has missed.
    pub incoming: Seq<Seq<u8>>,
}

/// The message of type `M` in what the server has sent.
pub open spec fn message_in<M: MessageSpec>(order: ByteOrder, b: Seq<u8>) -> Result<
    M::V,
    ReadProtoError,
> {
    match framing::unframed::<M>(order, b) {
        Ok((v, _)) => Ok(v),
        Err(e) => Err(e),
    }
}

impl HandshakeView {
    /// The handshake in another phase, and what it wants done there.
    pub open spec fn at(self, phase: HandshakePhase, action: HandshakeActionView) -> (
        HandshakeView,
        HandshakeActionView,
    ) {
        (HandshakeView { phase, ..self }, action)
    }

    pub open spec fn failed(self, e: HandshakeErrorView) -> (HandshakeView, HandshakeActionView) {
        self.at(HandshakePhase::Over, HandshakeActionView::Fail(e))
    }

    /// Sends a message.
    pub open spec fn sending<M: MessageSpec>(self, phase: HandshakePhase, v: M::V) -> (
        HandshakeView,
        HandshakeActionView,
    ) {
        self.at(
            phase,
            HandshakeActionView::Send(framing::framed(self.order, message::encoding::<M>(v))),
        )
    }

    /// What the server's answer means: a first connection is open with it. One that is
    /// opened again goes on with the packets that were missed, unless the server has
    /// ended the session.
    pub open spec fn answered(self, c: ConnectionView, answer: ConnectResponseView) -> (
        HandshakeView,
        HandshakeActionView,
    ) {
        if self.first && connection::is_welcome(answer) {
            HandshakeView { answer, ..self }.at(
                HandshakePhase::Ready,
                HandshakeActionView::MakeReady,
            )
        } else if !self.first && answer.status == Some(ConnectStatus::InvalidKey) {
            self.at(
                HandshakePhase::Over,
                HandshakeActionView::Finished(RecoverOutcome::SessionEnded),
            )
        } else if !self.first && answer.status == Some(ConnectStatus::ReturningClient) {
            self.sending::<SequenceHeader>(HandshakePhase::Header, c.header())
        } else {
            self.failed(HandshakeErrorView::Connect(connection::refusal(answer)))
        }
    }

    /// What a handshake does when it is told what came of its last action, as long as
    /// that does not change the connection.
    pub open spec fn next(self, c: ConnectionView, event: HandshakeEventView) -> (
        HandshakeView,
        HandshakeActionView,
    ) {
        match (self.phase, event) {
            (HandshakePhase::Start, HandshakeEventView::Done) => self.sending::<ConnectRequest>(
                HandshakePhase::Request,
                c.request(),
            ),
            (HandshakePhase::Request, HandshakeEventView::Done) => self.at(
                HandshakePhase::Answer,
                HandshakeActionView::Receive,
            ),
            (HandshakePhase::Answer, HandshakeEventView::Received(b)) => {
                match message_in::<ConnectResponse>(self.order, b) {
                    Ok(answer) => self.answered(c, answer),
                    Err(e) => self.failed(HandshakeErrorView::Message(e)),
                }
            },
            (HandshakePhase::Header, HandshakeEventView::Done) => self.at(
                HandshakePhase::Remote,
                HandshakeActionView::Receive,
            ),
            (HandshakePhase::Remote, HandshakeEventView::Received(b)) => {
                match message_in::<SequenceHeader>(self.order, b) {
                    Ok(remote) => match c.catchup_for(remote) {
                        Ok(buffer) => self.sending::<CatchupBuffer>(
                            HandshakePhase::Outgoing,
                            CatchupBufferView { buffer },
                        ),
                        Err(e) => self.failed(HandshakeErrorView::Recover(e)),
                    },
                    Err(e) => self.failed(HandshakeErrorView::Message(e)),
                }
            },
            (HandshakePhase::Outgoing, HandshakeEventView::Done) => self.at(
                HandshakePhase::Incoming,
                HandshakeActionView::Receive,
            ),
            (HandshakePhase::Incoming, HandshakeEventView::Received(b)) => {
                match message_in::<CatchupBuffer>(self.order, b) {
                    Ok(catchup) => HandshakeView { incoming: catchup.buffer, ..self }.at(
                        HandshakePhase::Ready,
                        HandshakeActionView::MakeReady,
                    ),
                    Err(e) => self.failed(HandshakeErrorView::Message(e)),
                }
            },
            (HandshakePhase::Ready, HandshakeEventView::Done) => if self.first && c.key.len()
                != crypto::KEY_LEN {
                self.failed(
                    HandshakeErrorView::Connect(
                        ConnectErrorView::Crypto(CryptoError::InvalidKeyLength),
                    ),
                )
            } else {
                HandshakeView { incoming: Seq::empty(), ..self }.at(
                    HandshakePhase::Over,
                    HandshakeActionView::Finished(RecoverOutcome::Recovered),
                )
            },
            _ => self.failed(HandshakeErrorView::OutOfTurn),
        }
    }

    /// The connection after the same: it changes only with the last step of a
    /// handshake that succeeds.
    pub open spec fn connection_after(
        self,
        c: ConnectionView,
        event: HandshakeEventView,
    ) -> ConnectionView {
        if self.next(c, event).1 != HandshakeActionView::Finished(RecoverOutcome::Recovered) {
            c
        } else if self.first {
            c.opened()
        } else {
            c.revived(self.incoming)
        }
    }
}

/// A handshake with the server.
pub struct Handshake {
    first: bool,
    order: ByteOrder,
    phase: HandshakePhase,
    answer: ConnectResponse,
    incoming: CatchupBuffer,
}

impl View for Handshake {
    type V = HandshakeView;

    closed spec fn view(&self) -> HandshakeView {
        HandshakeView {
            first: self.first,
            order: self.order,
            phase: self.phase,
            answer: self.answer@,
            incoming: self.incoming@.buffer,
        }
    }
}

impl Handshake {
    /// What holds of every handshake: one for a first connection exchanges no packets,
    /// and is ready only where the server has allowed the connection.
    pub open spec fn wf(self) -> bool {
        self@.first ==> {
            &&& self@.phase != HandshakePhase::Header
            &&& self@.phase != HandshakePhase::Remote
            &&& self@.phase != HandshakePhase::Outgoing
            &&& self@.phase != HandshakePhase::Incoming
            &&& self@.phase == HandshakePhase::Ready ==> connection::is_welcome(self@.answer)
            &&& self@.incoming.len() == 0
        }
    }

    /// A handshake that has not started. Lengths are sent in the byte order of the
    /// machine; which one that is, is not stated.
    pub fn new(first: bool) -> (r: Handshake)
        ensures
            r.wf(),
            r@.first == first,
            r@.phase == HandshakePhase::Start,
            r@.answer == ConnectResponse::empty(),
            r@.incoming.len() == 0,
    {
        Handshake {
            first,
            order: byte_order::host_byte_order(),
            phase: HandshakePhase::Start,
            answer: ConnectResponse::default(),
            incoming: CatchupBuffer::default(),
        }
    }

    /// How many packets the client has missed.
    pub fn incoming_count(&self) -> (r: usize)
        ensures
            r == self@.incoming.len(),
    {
        self.incoming.buffer.len()
    }

    fn fail(&mut self, e: HandshakeError) -> (r: HandshakeAction)
        ensures
            (final(self)@, r@) == old(self)@.failed(e@),
    {
        self.phase = HandshakePhase::Over;
        HandshakeAction::Fail(e)
    }

    fn take_answer(&mut self, conn: &ClientConnection, b: &[u8]) -> (r: HandshakeAction)
        requires
            old(self).wf(),
            old(self)@.phase == HandshakePhase::Answer,
        ensures
            final(self).wf(),
            (final(self)@, r@) == old(self)@.next(conn@, HandshakeEventView::Received(b@)),
    {
        let answer: ConnectResponse = match read_proto_in::<ConnectResponse>(self.order, b) {
            Ok((m, _)) => m,
            Err(e) => {
                return self.fail(HandshakeError::Message(e));
            },
        };
        if self.first {
            match check_connect_response(&answer) {
                Ok(_) => {
                    self.answer = answer;
                    self.phase = HandshakePhase::Ready;
                    HandshakeAction::MakeReady
                },
                Err(e) => self.fail(HandshakeError::Connect(e)),
            }
        } else {
            match check_reconnect_response(&answer) {
                Ok(true) => {
                    self.phase = HandshakePhase::Header;
                    HandshakeAction::Send(write_proto_in(self.order, &conn.sequence_header()))
                },
                Ok(false) => {
                    self.phase = HandshakePhase::Over;
                    HandshakeAction::Finished(RecoverOutcome::SessionEnded)
                },
                Err(e) => self.fail(HandshakeError::Connect(e)),
            }
        }
    }

    fn take_remote(&mut self, conn: &ClientConnection, b: &[u8]) -> (r: HandshakeAction)
        requires
            conn.wf(),
            old(self).wf(),
            old(self)@.phase == HandshakePhase::Remote,
        ensures
            final(self).wf(),
            (final(self)@, r@) == old(self)@.next(conn@, HandshakeEventView::Received(b@)),
    {
        match read_proto_in::<SequenceHeader>(self.order, b) {
            Ok((remote, _)) => match conn.catchup_for(&remote) {
                Ok(catchup) => {
                    self.phase = HandshakePhase::Outgoing;
                    HandshakeAction::Send(write_proto_in(self.order, &catchup))
                },
                Err(e) => self.fail(HandshakeError::Recover(e)),
            },
            Err(e) => self.fail(HandshakeError::Message(e)),
        }
    }

    fn take_incoming(&mut self, conn: &ClientConnection, b: &[u8]) -> (r: HandshakeAction)
        requires
            old(self).wf(),
            old(self)@.phase == HandshakePhase::Incoming,
        ensures
            final(self).wf(),
            (final(self)@, r@) == old(self)@.next(conn@, HandshakeEventView::Received(b@)),
    {
        match read_proto_in::<CatchupBuffer>(self.order, b) {
            Ok((catchup, _)) => {
                self.incoming = catchup;
                self.phase = HandshakePhase::Ready;
                HandshakeAction::MakeReady
            },
            Err(e) => self.fail(HandshakeError::Message(e)),
        }
    }

    fn finish(&mut self, conn: &mut ClientConnection) -> (r: HandshakeAction)
        requires
            old(self).wf(),
            old(conn).wf(),
            old(self)@.phase == HandshakePhase::Ready,
            old(conn)@.received_count() + old(self)@.incoming.len() <= i64::MAX,
        ensures
            final(self).wf(),
            final(conn).wf(),
            (final(self)@, r@) == old(self)@.next(old(conn)@, HandshakeEventView::Done),
            final(conn)@ == old(self)@.connection_after(old(conn)@, HandshakeEventView::Done),
    {
        if self.first {
            match conn.connect(&self.answer) {
                Ok(_) => {},
                Err(e) => {
                    return self.fail(HandshakeError::Connect(e));
                },
            }
            assert(self@.incoming =~= Seq::empty());
        } else {
            let mut catchup = CatchupBuffer::default();
            std::mem::swap(&mut catchup, &mut self.incoming);
            conn.revive(catchup);
        }
        self.phase = HandshakePhase::Over;
        HandshakeAction::Finished(RecoverOutcome::Recovered)
    }

    /// Goes on with a handshake by one step: takes what came of the last action, and
    /// gives the next one.
    pub fn step(&mut self, conn: &mut ClientConnection, event: HandshakeEvent) -> (r:
        HandshakeAction)
        requires
            old(self).wf(),
            old(conn).wf(),
            old(self)@.phase == HandshakePhase::Ready ==> old(conn)@.received_count()
                + old(self)@.incoming.len() <= i64::MAX,
        ensures
            final(self).wf(),
            final(conn).wf(),
            (final(self)@, r@) == old(self)@.next(old(conn)@, event@),
            final(conn)@ == old(self)@.connection_after(old(conn)@, event@),
    {
        match (self.phase, event) {
            (HandshakePhase::Start, HandshakeEvent::Done) => {
                self.phase = HandshakePhase::Request;
                HandshakeAction::Send(write_proto_in(self.order, &conn.connect_request()))
            },
            (HandshakePhase::Request, HandshakeEvent::Done) => {
                self.phase = HandshakePhase::Answer;
                HandshakeAction::Receive
            },
            (HandshakePhase::Answer, HandshakeEvent::Received(b)) => self.take_answer(
                conn,
                b.as_slice(),
            ),
            (HandshakePhase::Header, HandshakeEvent::Done) => {
                self.phase = HandshakePhase::Remote;
                HandshakeAction::Receive
            },
            (HandshakePhase::Remote, HandshakeEvent::Received(b)) => self.take_remote(
                conn,
                b.as_slice(),
            ),
            (HandshakePhase::Outgoing, HandshakeEvent::Done) => {
                self.phase = HandshakePhase::Incoming;
                HandshakeAction::Receive
            },
            (HandshakePhase::Incoming, HandshakeEvent::Received(b)) => self.take_incoming(
                conn,
                b.as_slice(),
            ),
            (HandshakePhase::Ready, HandshakeEvent::Done) => self.finish(conn),
            _ => self.fail(HandshakeError::OutOfTurn),
        }
    }
}

/// A message that is sent in a handshake is read by the other side as it is.
proof fn lemma_message_arrives<M: ProtoMessage>(order: ByteOrder, v: M::V)
    requires
        M::valid(v),
        message::encoding::<M>(v).len() <= framing::MAX_PROTO_LEN,
    ensures
        message_in::<M>(order, framing::framed(order, message::encoding::<M>(v))) == Ok::<
            M::V,
            ReadProtoError,
        >(M::delivered(v)),
{
    let b = framing::framed(order, message::encoding::<M>(v));
    framing::framing_round_trip::<M>(order, v, Seq::empty());
    assert(b + Seq::<u8>::empty() =~= b);
}

proof fn lemma_number_is_short(o: Option<i32>)
    ensures
        wire::encode_fields(message::optional_int32(1, o)).len() <= 1 + wire::MAX_VARINT_LEN,
{
    match o {
        Some(v) => {
            message::lemma_encode_one(wire::int32_field(1, v));
            wire::varint_round_trip(v as u64, Seq::empty());
            assert(wire::varint((1u32 * 8 + 0u32) as nat).len() == 1);
        },
        None => {},
    }
}

proof fn lemma_short_messages(answer: ConnectResponseView, header: SequenceHeaderView)
    requires
        answer.error is None,
    ensures
        message::encoding::<ConnectResponse>(answer).len() <= framing::MAX_PROTO_LEN,
        message::encoding::<SequenceHeader>(header).len() <= framing::MAX_PROTO_LEN,
{
    let status = handshake::optional_status(answer.status);
    assert(ConnectResponse::fields(answer) =~= message::optional_int32(1, status));
    lemma_number_is_short(status);
    lemma_number_is_short(header.sequence_number);
}

/// A handshake by which a connection is opened again, with a server that lets it: the
/// client sends its request, how many packets it has received, and those that the
/// server has missed; the server reads all of that as it was meant; and the connection
/// goes on with the packets that the server sends in return. No message may be longer
/// than what is accepted.
pub proof fn a_handshake_exchanges_what_was_missed(
    h: HandshakeView,
    c: ConnectionView,
    remote: i32,
    outgoing: Seq<Seq<u8>>,
    incoming: Seq<Seq<u8>>,
)
    requires
        !h.first,
        h.phase == HandshakePhase::Start,
        c.catchup(remote as int) == Ok::<Seq<Seq<u8>>, RecoverError>(outgoing),
        message::encoding::<ConnectRequest>(c.request()).len() <= framing::MAX_PROTO_LEN,
        message::encoding::<CatchupBuffer>(CatchupBufferView { buffer: outgoing }).len()
            <= framing::MAX_PROTO_LEN,
        message::encoding::<CatchupBuffer>(CatchupBufferView { buffer: incoming }).len()
            <= framing::MAX_PROTO_LEN,
    ensures
        ({
            let answer = framing::framed(
                h.order,
                message::encoding::<ConnectResponse>(
                    ConnectResponseView {
                        status: Some(ConnectStatus::ReturningClient),
                        error: None,
                    },
                ),
            );
            let header = framing::framed(
                h.order,
                message::encoding::<SequenceHeader>(
                    SequenceHeaderView { sequence_number: Some(remote) },
                ),
            );
            let missed = framing::framed(
                h.order,
                message::encoding::<CatchupBuffer>(CatchupBufferView { buffer: incoming }),
            );
            let (h1, request) = h.next(c, HandshakeEventView::Done);
            let (h2, receive_answer) = h1.next(c, HandshakeEventView::Done);
            let (h3, count) = h2.next(c, HandshakeEventView::Received(answer));
            let (h4, receive_header) = h3.next(c, HandshakeEventView::Done);
            let (h5, catchup) = h4.next(c, HandshakeEventView::Received(header));
            let (h6, receive_missed) = h5.next(c, HandshakeEventView::Done);
            let (h7, ready) = h6.next(c, HandshakeEventView::Received(missed));
            let (h8, end) = h7.next(c, HandshakeEventView::Done);
            &&& request matches HandshakeActionView::Send(b) && message_in::<ConnectRequest>(
                h.order,
                b,
            ) == Ok::<ConnectRequestView, ReadProtoError>(c.request())
            &&& receive_answer == HandshakeActionView::Receive
            &&& count matches HandshakeActionView::Send(b) && message_in::<SequenceHeader>(
                h.order,
                b,
            ) == Ok::<SequenceHeaderView, ReadProtoError>(c.header())
            &&& receive_header == HandshakeActionView::Receive
            &&& catchup matches HandshakeActionView::Send(b) && message_in::<CatchupBuffer>(
                h.order,
                b,
            ) == Ok::<CatchupBufferView, ReadProtoError>(CatchupBufferView { buffer: outgoing })
            &&& receive_missed == HandshakeActionView::Receive
            &&& ready == HandshakeActionView::MakeReady
            &&& end == HandshakeActionView::Finished(RecoverOutcome::Recovered)
            &&& h7.connection_after(c, HandshakeEventView::Done) == c.revived(incoming)
        }),
{
    let answer = ConnectResponseView { status: Some(ConnectStatus::ReturningClient), error: None };
    let header = SequenceHeaderView { sequence_number: Some(remote) };
    lemma_message_arrives::<ConnectRequest>(h.order, c.request());
    lemma_short_messages(answer, header);
    lemma_short_messages(answer, c.header());
    lemma_message_arrives::<ConnectResponse>(h.order, answer);
    lemma_message_arrives::<SequenceHeader>(h.order, c.header());
    lemma_message_arrives::<SequenceHeader>(h.order, header);
    lemma_message_arrives::<CatchupBuffer>(h.order, CatchupBufferView { buffer: outgoing });
    lemma_message_arrives::<CatchupBuffer>(h.order, CatchupBufferView { buffer: incoming });
}

/// A handshake by which a connection is opened for the first time: the client sends its
/// request, which the server reads as it was meant; and where the server lets it in, the
/// connection is open once the socket is ready, if the passkey has the length of a key.
pub proof fn a_first_handshake_opens_the_connection(
    h: HandshakeView,
    c: ConnectionView,
    status: ConnectStatus,
)
    requires
        h.first,
        h.phase == HandshakePhase::Start,
        status == ConnectStatus::NewClient || status == ConnectStatus::ReturningClient,
        message::encoding::<ConnectRequest>(c.request()).len() <= framing::MAX_PROTO_LEN,
    ensures
        ({
            let answer = framing::framed(
                h.order,
                message::encoding::<ConnectResponse>(
                    ConnectResponseView { status: Some(status), error: None },
                ),
            );
            let (h1, request) = h.next(c, HandshakeEventView::Done);
            let (h2, receive_answer) = h1.next(c, HandshakeEventView::Done);
            let (h3, ready) = h2.next(c, HandshakeEventView::Received(answer));
            let (h4, end) = h3.next(c, HandshakeEventView::Done);
            &&& request matches HandshakeActionView::Send(b) && message_in::<ConnectRequest>(
                h.order,
                b,
            ) == Ok::<ConnectRequestView, ReadProtoError>(c.request())
            &&& receive_answer == HandshakeActionView::Receive
            &&& ready == HandshakeActionView::MakeReady
            &&& c.key.len() == 32 ==> end == HandshakeActionView::Finished(
                RecoverOutcome::Recovered,
            ) && h3.connection_after(c, HandshakeEventView::Done) == c.opened()
            &&& c.key.len() != 32 ==> end == HandshakeActionView::Fail(
                HandshakeErrorView::Connect(
                    ConnectErrorView::Crypto(CryptoError::InvalidKeyLength),
                ),
            ) && h3.connection_after(c, HandshakeEventView::Done) == c
        }),
{
    let answer = ConnectResponseView { status: Some(status), error: None };
    lemma_message_arrives::<ConnectRequest>(h.order, c.request());
    lemma_short_messages(answer, c.header());
    lemma_message_arrives::<ConnectResponse>(h.order, answer);
}

/// What an answer to the request leads to. A first connection needs a welcome. One that is
/// opened again needs to be recognised: the count of received packets is sent next. A key
/// that the server does not know ends the session. Any other answer ends the handshake with
/// what the server said.
pub proof fn answers_to_a_request(
    h: HandshakeView,
    c: ConnectionView,
    b: Seq<u8>,
    answer: ConnectResponseView,
)
    requires
        h.phase == HandshakePhase::Answer,
        message_in::<ConnectResponse>(h.order, b) == Ok::<ConnectResponseView, ReadProtoError>(
            answer,
        ),
    ensures
        ({
            let (after, action) = h.next(c, HandshakeEventView::Received(b));
            let welcome = answer.status == Some(ConnectStatus::NewClient);
            let welcome_back = answer.status == Some(ConnectStatus::ReturningClient);
            let unknown = answer.status == Some(ConnectStatus::InvalidKey);
            &&& h.first && (welcome || welcome_back) ==> action == HandshakeActionView::MakeReady
                && after.phase == HandshakePhase::Ready
            &&& !h.first && welcome_back ==> after.phase == HandshakePhase::Header && (
            action matches HandshakeActionView::Send(sent) && message_in::<SequenceHeader>(
                h.order,
                sent,
            ) == Ok::<SequenceHeaderView, ReadProtoError>(c.header()))
            &&& !h.first && unknown ==> after.phase == HandshakePhase::Over && action
                == HandshakeActionView::Finished(RecoverOutcome::SessionEnded)
            &&& (h.first && !welcome && !welcome_back) || (!h.first && !welcome_back && !unknown)
                ==> after.phase == HandshakePhase::Over && (action matches HandshakeActionView::Fail(
                HandshakeErrorView::Connect(e),
            ) && connection::refuses_with(e, answer))
            &&& h.connection_after(c, HandshakeEventView::Received(b)) == c
        }),
{
    let plain = ConnectResponseView { status: None, error: None };
    lemma_short_messages(plain, c.header());
    lemma_message_arrives::<SequenceHeader>(h.order, c.header());
}

/// What the messages in which packets are exchanged lead to: the packets that the server has
/// missed are sent as they were written, and those that the client has missed are kept until
/// the socket is ready. Where the server's count is out of range, or the packets are gone,
/// the handshake ends.
pub proof fn packets_are_exchanged(
    h: HandshakeView,
    c: ConnectionView,
    b: Seq<u8>,
    remote: SequenceHeaderView,
    missed: CatchupBufferView,
)
    ensures
        h.phase == HandshakePhase::Remote && message_in::<SequenceHeader>(h.order, b) == Ok::<
            SequenceHeaderView,
            ReadProtoError,
        >(remote) ==> {
            let (after, action) = h.next(c, HandshakeEventView::Received(b));
            match c.catchup_for(remote) {
                Ok(buffer) => message::encoding::<CatchupBuffer>(CatchupBufferView { buffer }).len()
                    <= framing::MAX_PROTO_LEN ==> after.phase == HandshakePhase::Outgoing && (
                action matches HandshakeActionView::Send(sent) && message_in::<CatchupBuffer>(
                    h.order,
                    sent,
                ) == Ok::<CatchupBufferView, ReadProtoError>(CatchupBufferView { buffer })),
                Err(e) => after.phase == HandshakePhase::Over && action
                    == HandshakeActionView::Fail(HandshakeErrorView::Recover(e)),
            }
        },
        h.phase == HandshakePhase::Incoming && message_in::<CatchupBuffer>(h.order, b) == Ok::<
            CatchupBufferView,
            ReadProtoError,
        >(missed) ==> {
            let (after, action) = h.next(c, HandshakeEventView::Received(b));
            &&& action == HandshakeActionView::MakeReady
            &&& after.phase == HandshakePhase::Ready
            &&& after.incoming == missed.buffer
            &&& after.first == h.first
            &&& after.order == h.order
            &&& !h.first ==> after.connection_after(c, HandshakeEventView::Done) == c.revived(
                missed.buffer,
            )
        },
        h.phase == HandshakePhase::Remote || h.phase == HandshakePhase::Incoming
            ==> h.connection_after(c, HandshakeEventView::Received(b)) == c,
{
    if let Ok(buffer) = c.catchup_for(remote) {
        if message::encoding::<CatchupBuffer>(CatchupBufferView { buffer }).len()
            <= framing::MAX_PROTO_LEN {
            lemma_message_arrives::<CatchupBuffer>(h.order, CatchupBufferView { buffer });
        }
    }
}

/// A message that cannot be read ends a handshake, and so does anything that comes out of
/// turn. The connection stays as it was.
pub proof fn a_handshake_fails(h: HandshakeView, c: ConnectionView, b: Seq<u8>)
    ensures
        ({
            let (after, action) = h.next(c, HandshakeEventView::Received(b));
            let unreadable = match h.phase {
                HandshakePhase::Answer => match message_in::<ConnectResponse>(h.order, b) {
                    Ok(_) => None,
                    Err(e) => Some(HandshakeErrorView::Message(e)),
                },
                HandshakePhase::Remote => match message_in::<SequenceHeader>(h.order, b) {
                    Ok(_) => None,
                    Err(e) => Some(HandshakeErrorView::Message(e)),
                },
                HandshakePhase::Incoming => match message_in::<CatchupBuffer>(h.order, b) {
                    Ok(_) => None,
                    Err(e) => Some(HandshakeErrorView::Message(e)),
                },
                _ => Some(HandshakeErrorView::OutOfTurn),
            };
            unreadable matches Some(e) ==> action == HandshakeActionView::Fail(e) && after.phase
                == HandshakePhase::Over && h.connection_after(c, HandshakeEventView::Received(b))
                == c
        }),
        ({
            let (after, action) = h.next(c, HandshakeEventView::Done);
            h.phase == HandshakePhase::Answer || h.phase == HandshakePhase::Remote || h.phase
                == HandshakePhase::Incoming || h.phase == HandshakePhase::Over ==> action
                == HandshakeActionView::Fail(HandshakeErrorView::OutOfTurn) && after.phase
                == HandshakePhase::Over && h.connection_after(c, HandshakeEventView::Done) == c
        }),
{
}

/// What is sent or received comes next in its turn, and nothing of it changes the connection.
pub proof fn a_handshake_goes_on(h: HandshakeView, c: ConnectionView)
    requires
        h.phase == HandshakePhase::Request || h.phase == HandshakePhase::Header || h.phase
            == HandshakePhase::Outgoing,
    ensures
        ({
            let (after, action) = h.next(c, HandshakeEventView::Done);
            &&& action == HandshakeActionView::Receive
            &&& h.phase == HandshakePhase::Request ==> after.phase == HandshakePhase::Answer
            &&& h.phase == HandshakePhase::Header ==> after.phase == HandshakePhase::Remote
            &&& h.phase == HandshakePhase::Outgoing ==> after.phase == HandshakePhase::Incoming
            &&& after.first == h.first && after.order == h.order && after.answer == h.answer
            &&& after.incoming == h.incoming
            &&& h.connection_after(c, HandshakeEventView::Done) == c
        }),
{
}

} // verus!

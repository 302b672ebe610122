//! The connection of a client: opening it, reading and writing packets, and opening
//! it again after it is lost.
//!
//! The connection itself makes no system calls. Each operation says what is to be
//! done with the socket, and is told what came of it.

use vstd::prelude::*;
use vstd::utf8::*;

use crate::backed;
use crate::backed::{
    BackedReader, BackedWriter, ReadStep, ReaderView, RecoverError, WriteState, WriteStep,
    WriterView,
};
use crate::crypto;
use crate::crypto::{
    CipherState, CryptoError, CryptoHandler, CLIENT_SERVER_NONCE_MSB, SERVER_CLIENT_NONCE_MSB,
};
use crate::io::IoErrorKind;
use crate::packet::{Packet, PacketView};
use crate::proto::handshake::{
    ConnectRequestView, ConnectResponseView, SequenceHeaderView,
};
use crate::proto::{
    CatchupBuffer, ConnectRequest, ConnectResponse, ConnectStatus, SequenceHeader, PROTOCOL_VERSION,
};
use crate::recovery;
use crate::text;

verus! {

/// How long to wait before a packet is tried again while there is a socket.
pub const BUSY_PAUSE_MS: u64 = 1;

/// How long to wait before a packet is tried again while there is none.
pub const OFFLINE_PAUSE_MS: u64 = 100;

/// How long to wait between two attempts to reconnect.
pub const RECONNECT_PAUSE_MS: u64 = 1000;

/// How long one attempt to reach an address may take.
pub const CONNECT_TIMEOUT_MS: u64 = 10_000;

/// Why a connection was not opened.
#[derive(Debug, Clone)]
pub enum ConnectError {
    /// The server answered with a status that does not allow it, and perhaps said
    /// why.
    Refused(Option<ConnectStatus>, String),
    /// The passkey is not a key.
    Crypto(CryptoError),
}

pub enum ConnectErrorView {
    Refused(Option<ConnectStatus>, Seq<char>),
    Crypto(CryptoError),
}

impl View for ConnectError {
    type V = ConnectErrorView;

    open spec fn view(&self) -> ConnectErrorView {
        match self {
            ConnectError::Refused(status, error) => ConnectErrorView::Refused(*status, error@),
            ConnectError::Crypto(e) => ConnectErrorView::Crypto(*e),
        }
    }
}

/// What is to be done for a packet that is to be written.
#[derive(Debug)]
pub enum WriteAction {
    /// Nothing: the packet has been taken, or will never be.
    Finished(bool),
    /// These bytes are to be sent, and the outcome reported.
    Send(Vec<u8>),
    /// The connection is to be opened again, and the packet to be tried once more
    /// after so many milliseconds.
    Reconnect(u64),
    /// The packet is to be tried once more after so many milliseconds.
    Wait(u64),
}

/// What is to be done for the next packet.
#[derive(Debug)]
pub enum ReadAction {
    /// Nothing: there is none yet.
    Nothing,
    /// Up to so many bytes are to be received, and the outcome reported.
    Receive(usize),
    /// Nothing: here it is.
    Packet(Packet),
    /// The connection is to be opened again.
    Reconnect,
}

/// How an attempt to open the connection again went.
#[derive(Debug, Clone, Copy, PartialEq, Eq, Structural)]
pub enum RecoverOutcome {
    /// The connection is open again.
    Recovered,
    /// The server has ended the session.
    SessionEnded,
    /// The attempt failed.
    Failed,
}

/// The state of a connection.
pub struct ConnectionView {
    pub host: Seq<char>,
    pub port: u16,
    pub id: Seq<char>,
    pub key: Seq<u8>,
    pub reader: Option<ReaderView>,
    pub writer: Option<WriterView>,
    pub socket_alive: bool,
    pub shutting_down: bool,
}

/// The connection of a client.
pub struct ClientConnection {
    host: String,
    port: u16,
    id: String,
    key: Vec<u8>,
    reader: Option<BackedReader>,
    writer: Option<BackedWriter>,
    socket_alive: bool,
    shutting_down: bool,
}

impl View for ClientConnection {
    type V = ConnectionView;

    closed spec fn view(&self) -> ConnectionView {
        ConnectionView {
            host: self.host@,
            port: self.port,
            id: self.id@,
            key: self.key@,
            reader: match self.reader {
                Some(r) => Some(r@),
                None => None,
            },
            writer: match self.writer {
                Some(w) => Some(w@),
                None => None,
            },
            socket_alive: self.socket_alive,
            shutting_down: self.shutting_down,
        }
    }
}

/// What is to be done once it is known what became of a packet.
pub open spec fn action_after(state: WriteState, socket_alive: bool) -> WriteAction {
    match state {
        WriteState::Success => WriteAction::Finished(true),
        WriteState::BufferedOnly => WriteAction::Finished(true),
        WriteState::WroteWithFailure => WriteAction::Reconnect(BUSY_PAUSE_MS),
        WriteState::Skipped => WriteAction::Wait(
            if socket_alive {
                BUSY_PAUSE_MS
            } else {
                OFFLINE_PAUSE_MS
            },
        ),
    }
}

fn write_action(state: WriteState, socket_alive: bool) -> (r: WriteAction)
    ensures
        r == action_after(state, socket_alive),
{
    match state {
        WriteState::Success => WriteAction::Finished(true),
        WriteState::BufferedOnly => WriteAction::Finished(true),
        WriteState::WroteWithFailure => WriteAction::Reconnect(BUSY_PAUSE_MS),
        WriteState::Skipped => {
            if socket_alive {
                WriteAction::Wait(BUSY_PAUSE_MS)
            } else {
                WriteAction::Wait(OFFLINE_PAUSE_MS)
            }
        },
    }
}

/// Whether a server that gives this answer has opened the connection.
pub open spec fn is_welcome(r: ConnectResponseView) -> bool {
    r.status == Some(ConnectStatus::NewClient) || r.status == Some(ConnectStatus::ReturningClient)
}

/// Whether an error tells the status of an answer, and what the server said with it,
/// if anything.
pub open spec fn refuses_with(e: ConnectErrorView, r: ConnectResponseView) -> bool {
    &&& e matches ConnectErrorView::Refused(status, error)
    &&& status == r.status
    &&& r.error matches Some(said) ==> error == said
    &&& r.error is None ==> error.len() == 0
}

/// The error for an answer that does not allow the connection.
pub open spec fn refusal(r: ConnectResponseView) -> ConnectErrorView {
    ConnectErrorView::Refused(
        r.status,
        match r.error {
            Some(error) => error,
            None => Seq::empty(),
        },
    )
}

fn refused(response: &ConnectResponse) -> (r: ConnectError)
    ensures
        r@ == refusal(response@),
{
    let error: String = match &response.error {
        Some(error) => error.clone(),
        None => String::new(),
    };
    ConnectError::Refused(response.status, error)
}

/// Whether the server's answer to the first request opens the connection.
pub fn check_connect_response(response: &ConnectResponse) -> (r: Result<(), ConnectError>)
    ensures
        match r {
            Ok(_) => is_welcome(response@),
            Err(e) => !is_welcome(response@) && e@ == refusal(response@),
        },
        r is Ok <==> response.status == Some(ConnectStatus::NewClient) || response.status == Some(
            ConnectStatus::ReturningClient,
        ),
        r matches Err(e) ==> refuses_with(e@, response@),
{
    match response.status {
        Some(ConnectStatus::NewClient) => Ok(()),
        Some(ConnectStatus::ReturningClient) => Ok(()),
        _ => Err(refused(response)),
    }
}

/// Whether the server's answer to a request to reconnect lets the session go on;
/// `false` where the server has ended it.
pub fn check_reconnect_response(response: &ConnectResponse) -> (r: Result<bool, ConnectError>)
    ensures
        match r {
            Ok(true) => response@.status == Some(ConnectStatus::ReturningClient),
            Ok(false) => response@.status == Some(ConnectStatus::InvalidKey),
            Err(e) => response@.status != Some(ConnectStatus::ReturningClient) && response@.status
                != Some(ConnectStatus::InvalidKey) && e@ == refusal(response@),
        },
        r matches Err(e) ==> refuses_with(e@, response@),
{
    match response.status {
        Some(ConnectStatus::InvalidKey) => Ok(false),
        Some(ConnectStatus::ReturningClient) => Ok(true),
        _ => Err(refused(response)),
    }
}

/// Whether `r` is what a read of a connection gives, and leaves it in the state
/// `after`.
pub open spec fn reads_to(before: ConnectionView, after: ConnectionView, r: ReadAction) -> bool {
    match before.reader {
        None => after == before && r is Nothing,
        Some(reader) => match reader.ready() {
            Some(serialized) => {
                &&& after == (ConnectionView { reader: Some(reader.after_read()), ..before })
                &&& match backed::unpacked(serialized, reader.cipher) {
                    Ok(p) => r matches ReadAction::Packet(got) && got@ == p,
                    Err(_) => r is Reconnect,
                }
            },
            None => {
                &&& after == before
                &&& if reader.connected {
                    r matches ReadAction::Receive(n) && 0 < n == backed::missing(reader.partial)
                } else {
                    r is Nothing
                }
            },
        },
    }
}

impl ConnectionView {
    /// The connection once it is open: two new streams, each with the cipher of its
    /// direction.
    pub open spec fn opened(self) -> ConnectionView {
        let incoming = CipherState::fresh(self.key, SERVER_CLIENT_NONCE_MSB);
        let outgoing = CipherState::fresh(self.key, CLIENT_SERVER_NONCE_MSB);
        ConnectionView {
            reader: Some(
                ReaderView {
                    cipher: incoming,
                    connected: true,
                    sequence_number: 0,
                    partial: Seq::empty(),
                    local_buffer: Seq::empty(),
                },
            ),
            writer: Some(
                WriterView {
                    origin: outgoing,
                    cipher: outgoing,
                    connected: true,
                    backup: Seq::empty(),
                    backup_size: 0,
                    disconnected_bytes: 0,
                    sequence_number: 0,
                    taken: Seq::empty(),
                },
            ),
            socket_alive: true,
            ..self
        }
    }

    /// What holds of every connection: its two streams are well-formed.
    pub open spec fn wf(self) -> bool {
        &&& self.reader matches Some(r) ==> r.wf()
        &&& self.writer matches Some(w) ==> w.wf()
    }

    /// The first message of a connection: who the client is, and which protocol it
    /// speaks.
    pub open spec fn request(self) -> ConnectRequestView {
        ConnectRequestView { client_id: Some(self.id), version: Some(PROTOCOL_VERSION) }
    }

    /// The message that tells the server how many packets have been received, in 32
    /// bits.
    pub open spec fn header(self) -> SequenceHeaderView {
        SequenceHeaderView {
            sequence_number: Some(#[verifier::truncate] (self.received_count() as i32)),
        }
    }

    /// The connection once its reader has received some bytes.
    pub open spec fn with_received(self, b: Seq<u8>) -> ConnectionView {
        let reader = self.reader->Some_0;
        ConnectionView {
            reader: Some(ReaderView { partial: reader.partial + b, ..reader }),
            ..self
        }
    }

    /// The connection once its socket is gone.
    pub open spec fn disconnected(self) -> ConnectionView {
        ConnectionView {
            reader: match self.reader {
                Some(r) => Some(ReaderView { connected: false, ..r }),
                None => None,
            },
            writer: match self.writer {
                Some(w) => Some(WriterView { connected: false, ..w }),
                None => None,
            },
            socket_alive: false,
            ..self
        }
    }

    /// Whether the counters of the connection have room for one more packet.
    pub open spec fn has_room(self, p: PacketView) -> bool {
        self.writer matches Some(w) ==> w.has_room(p)
    }

    /// Whether the counter of the connection has room for the packet that is ready.
    pub open spec fn can_read(self) -> bool {
        self.reader matches Some(r) ==> r.can_read()
    }

    /// How many packets the connection has received.
    pub open spec fn received_count(self) -> int {
        match self.reader {
            Some(r) => r.sequence_number,
            None => 0,
        }
    }

    /// The packets to send again to a server that has told how many it has received;
    /// one that does not say has received none.
    pub open spec fn catchup_for(self, remote: SequenceHeaderView) -> Result<
        Seq<Seq<u8>>,
        RecoverError,
    > {
        self.catchup(
            match remote.sequence_number {
                Some(n) => n as int,
                None => 0,
            },
        )
    }

    /// The packets to send again to a server that has received `count` of them.
    pub open spec fn catchup(self, count: int) -> Result<Seq<Seq<u8>>, RecoverError> {
        match self.writer {
            Some(w) => w.recovery(count),
            None => Ok(Seq::empty()),
        }
    }

    /// The connection once it goes on with a new socket, after the packets that the
    /// server sent again.
    pub open spec fn revived(self, catchup: Seq<Seq<u8>>) -> ConnectionView {
        ConnectionView {
            reader: match self.reader {
                Some(r) => Some(r.revived(catchup)),
                None => None,
            },
            writer: match self.writer {
                Some(w) => Some(WriterView { connected: true, disconnected_bytes: 0, ..w }),
                None => None,
            },
            ..self
        }
    }
}

impl ClientConnection {
    /// What holds of every connection.
    pub open spec fn wf(self) -> bool {
        self@.wf()
    }

    /// A connection that has not been opened yet.
    pub fn new(host: String, port: u16, id: String, passkey: String) -> (r: ClientConnection)
        ensures
            r.wf(),
            r@ == (ConnectionView {
                host: host@,
                port,
                id: id@,
                key: encode_utf8(passkey@),
                reader: None,
                writer: None,
                socket_alive: false,
                shutting_down: false,
            }),
    {
        let key: Vec<u8> = vstd::slice::slice_to_vec(passkey.as_str().as_bytes());
        ClientConnection {
            host,
            port,
            id,
            key,
            reader: None,
            writer: None,
            socket_alive: false,
            shutting_down: false,
        }
    }

    pub fn id(&self) -> (r: &str)
        ensures
            r@ == self@.id,
    {
        self.id.as_str()
    }

    pub fn is_shutting_down(&self) -> (r: bool)
        ensures
            r == self@.shutting_down,
    {
        self.shutting_down
    }

    pub fn has_socket(&self) -> (r: bool)
        ensures
            r == self@.socket_alive,
    {
        self.socket_alive
    }

    /// The address of the server.
    pub fn address(&self) -> (r: String)
        ensures
            r@ == address_text(self@.host, self@.port),
            r@ == self@.host + seq![':'] + text::decimal(self@.port as nat),
    {
        socket_address(self.host.as_str(), self.port)
    }

    /// The first message of a connection.
    pub fn connect_request(&self) -> (r: ConnectRequest)
        ensures
            r@ == self@.request(),
            r.client_id matches Some(id) && id@ == self@.id,
            r.version == Some(6i32),
    {
        ConnectRequest { client_id: Some(self.id.clone()), version: Some(PROTOCOL_VERSION) }
    }

    /// Opens the connection, where the server's answer to the request allows it and
    /// the passkey is a key.
    pub fn connect(&mut self, response: &ConnectResponse) -> (r: Result<(), ConnectError>)
        requires
            old(self).wf(),
        ensures
            final(self).wf(),
            r is Ok <==> (response.status == Some(ConnectStatus::NewClient) || response.status
                == Some(ConnectStatus::ReturningClient)) && old(self)@.key.len() == 32,
            match r {
                Ok(_) => {
                    &&& is_welcome(response@)
                    &&& old(self)@.key.len() == crypto::KEY_LEN
                    &&& final(self)@ == old(self)@.opened()
                },
                Err(e) => {
                    &&& final(self)@ == old(self)@
                    &&& if is_welcome(response@) {
                        old(self)@.key.len() != crypto::KEY_LEN && e@
                            == ConnectErrorView::Crypto(CryptoError::InvalidKeyLength)
                    } else {
                        e@ == refusal(response@)
                    }
                },
            },
    {
        match check_connect_response(response) {
            Ok(_) => {},
            Err(e) => {
                return Err(e);
            },
        }
        let incoming = match CryptoHandler::new(self.key.as_slice(), SERVER_CLIENT_NONCE_MSB) {
            Ok(c) => c,
            Err(e) => {
                return Err(ConnectError::Crypto(e));
            },
        };
        let outgoing = match CryptoHandler::new(self.key.as_slice(), CLIENT_SERVER_NONCE_MSB) {
            Ok(c) => c,
            Err(e) => {
                return Err(ConnectError::Crypto(e));
            },
        };
        self.reader = Some(BackedReader::new(incoming));
        self.writer = Some(BackedWriter::new(outgoing));
        self.socket_alive = true;
        Ok(())
    }

    /// Whether the counters of the connection have room for `packet`.
    pub fn can_count(&self, packet: &Packet) -> (r: bool)
        requires
            self.wf(),
        ensures
            r == self@.has_room(packet@),
    {
        match &self.writer {
            Some(w) => w.can_count(packet),
            None => true,
        }
    }

    /// Writes a packet, or says what has to be done first.
    pub fn write_packet(&mut self, packet: &Packet) -> (r: WriteAction)
        requires
            old(self).wf(),
            old(self)@.has_room(packet@),
        ensures
            final(self).wf(),
            old(self)@.shutting_down ==> final(self)@ == old(self)@ && r == WriteAction::Finished(
                false,
            ),
            !old(self)@.shutting_down && old(self)@.writer is None ==> final(self)@ == old(self)@
                && r == WriteAction::Wait(
                if old(self)@.socket_alive {
                    1
                } else {
                    100
                },
            ),
            !old(self)@.shutting_down ==> (old(self)@.writer matches Some(w) ==> {
                let plain = !packet@.encrypted && packet@.payload.len() + 16 <= isize::MAX;
                let fits = w.disconnected_bytes + 2 + packet@.payload.len() <= 67_108_864;
                &&& final(self)@.writer matches Some(after)
                &&& if !w.connected && !fits {
                    &&& after == w
                    &&& r == WriteAction::Wait(
                        if old(self)@.socket_alive {
                            1
                        } else {
                            100
                        },
                    )
                } else if !plain {
                    after == w && r == WriteAction::Reconnect(1)
                } else {
                    &&& after.taken == w.taken.push(packet@)
                    &&& w.connected ==> r is Send
                    &&& !w.connected ==> r == WriteAction::Finished(true)
                }
            }),
            match old(self)@.writer {
                Some(w) if !old(self)@.shutting_down => {
                    &&& final(self)@ == (ConnectionView {
                        writer: Some(
                            if w.full_for(packet@) || !w.takes(packet@) {
                                w
                            } else {
                                w.after_write(packet@)
                            },
                        ),
                        ..old(self)@
                    })
                    &&& if w.full_for(packet@) {
                        r == action_after(WriteState::Skipped, old(self)@.socket_alive)
                    } else if !w.takes(packet@) {
                        r == action_after(WriteState::WroteWithFailure, old(self)@.socket_alive)
                    } else if !w.connected {
                        r == action_after(WriteState::BufferedOnly, old(self)@.socket_alive)
                    } else {
                        r matches WriteAction::Send(frame) && frame@ == backed::framed(
                            packet@.sealed(w.cipher).serialized(),
                        )
                    }
                },
                _ => {
                    &&& final(self)@ == old(self)@
                    &&& r == (if old(self)@.shutting_down {
                        WriteAction::Finished(false)
                    } else {
                        action_after(WriteState::Skipped, old(self)@.socket_alive)
                    })
                },
            },
    {
        if self.shutting_down {
            return WriteAction::Finished(false);
        }
        match &mut self.writer {
            Some(w) => match w.write(packet.clone()) {
                WriteStep::Done(state) => write_action(state, self.socket_alive),
                WriteStep::Send(frame) => WriteAction::Send(frame),
            },
            None => write_action(WriteState::Skipped, self.socket_alive),
        }
    }

    /// Takes note of whether the bytes of the last packet were sent, and says what is
    /// to be done then.
    pub fn finish_write(&mut self, sent: bool) -> (r: WriteAction)
        requires
            old(self).wf(),
            old(self)@.writer is Some,
        ensures
            final(self).wf(),
            final(self)@ == (if sent {
                old(self)@
            } else {
                ConnectionView {
                    writer: Some(
                        WriterView { connected: false, ..old(self)@.writer->Some_0 },
                    ),
                    ..old(self)@
                }
            }),
            r == action_after(
                if sent {
                    WriteState::Success
                } else {
                    WriteState::WroteWithFailure
                },
                old(self)@.socket_alive,
            ),
            r == (if sent {
                WriteAction::Finished(true)
            } else {
                WriteAction::Reconnect(1)
            }),
    {
        match &mut self.writer {
            Some(w) => {
                let state = w.finish_write(sent);
                write_action(state, self.socket_alive)
            },
            None => write_action(WriteState::Skipped, self.socket_alive),
        }
    }

    /// How many packets have been received.
    pub fn received_count(&self) -> (r: i64)
        ensures
            r == self@.received_count(),
            match self@.reader {
                Some(reader) => r == reader.sequence_number,
                None => r == 0,
            },
    {
        match &self.reader {
            Some(r) => r.sequence_number(),
            None => 0,
        }
    }

    /// Whether the counter of the connection has room for the packet that is ready.
    pub fn can_read(&self) -> (r: bool)
        requires
            self.wf(),
        ensures
            r == self@.can_read(),
    {
        match &self.reader {
            Some(r) => r.can_read(),
            None => true,
        }
    }

    /// Reads the next packet, or says what has to be done first. Where the stream is
    /// broken, the connection is to be opened again.
    pub fn read_packet(&mut self) -> (r: ReadAction)
        requires
            old(self).wf(),
            old(self)@.can_read(),
        ensures
            final(self).wf(),
            reads_to(old(self)@, final(self)@, r),
            old(self)@.reader is None ==> final(self)@ == old(self)@ && r is Nothing,
            old(self)@.reader matches Some(reader) ==> {
                &&& final(self)@ == (ConnectionView { reader: final(self)@.reader, ..old(self)@ })
                &&& final(self)@.reader matches Some(after)
                &&& match reader.ready() {
                    Some(serialized) => {
                        &&& after == reader.after_read()
                        &&& match backed::unpacked(serialized, reader.cipher) {
                            Ok(p) => r matches ReadAction::Packet(got) && got@ == p,
                            Err(_) => r is Reconnect,
                        }
                    },
                    None => {
                        &&& after == reader
                        &&& reader.connected ==> (r matches ReadAction::Receive(n) && 0 < n
                            == backed::missing(reader.partial))
                        &&& !reader.connected ==> r is Nothing
                    },
                }
            },
    {
        match &mut self.reader {
            Some(reader) => match reader.read() {
                Ok(ReadStep::Idle) => ReadAction::Nothing,
                Ok(ReadStep::Receive(n)) => ReadAction::Receive(n),
                Ok(ReadStep::Packet(p)) => ReadAction::Packet(p),
                Err(_) => ReadAction::Reconnect,
            },
            None => ReadAction::Nothing,
        }
    }

    /// Takes note of what came of receiving, and goes on reading where that makes
    /// sense.
    pub fn received(&mut self, outcome: Result<Vec<u8>, IoErrorKind>) -> (r: ReadAction)
        requires
            old(self).wf(),
            old(self)@.received_count() < i64::MAX,
            old(self)@.reader matches Some(reader) && (outcome matches Ok(b) ==> b@.len()
                <= backed::missing(reader.partial)),
        ensures
            final(self).wf(),
            final(self)@ == (ConnectionView { reader: final(self)@.reader, ..old(self)@ }),
            outcome matches Ok(b) ==> (b@.len() > 0 && old(self)@.reader->Some_0.local_buffer.len()
                == 0 && old(self)@.reader->Some_0.connected ==> {
                let had = old(self)@.reader->Some_0;
                let got = ReaderView { partial: had.partial + b@, ..had };
                &&& final(self)@.reader matches Some(after)
                &&& if backed::missing(got.partial) > 0 {
                    after == got && (r matches ReadAction::Receive(n) && n == backed::missing(
                        got.partial,
                    ))
                } else {
                    &&& after == got.after_read()
                    &&& match backed::unpacked(got.partial.skip(4), had.cipher) {
                        Ok(p) => r matches ReadAction::Packet(it) && it@ == p,
                        Err(_) => r is Reconnect,
                    }
                }
            }),
            match outcome {
                Ok(b) => if b@.len() == 0 {
                    final(self)@ == old(self)@ && r is Reconnect
                } else {
                    reads_to(old(self)@.with_received(b@), final(self)@, r)
                },
                Err(kind) => if kind == IoErrorKind::WouldBlock || kind == IoErrorKind::TimedOut {
                    final(self)@ == old(self)@ && r is Nothing
                } else if kind == IoErrorKind::Interrupted {
                    reads_to(old(self)@, final(self)@, r)
                } else {
                    final(self)@ == old(self)@ && r is Reconnect
                },
            },
    {
        match &mut self.reader {
            Some(reader) => match reader.received(outcome) {
                Ok(true) => {},
                Ok(false) => {
                    return ReadAction::Nothing;
                },
                Err(_) => {
                    return ReadAction::Reconnect;
                },
            },
            None => {},
        }
        self.read_packet()
    }

    fn invalidate(&mut self)
        requires
            old(self).wf(),
        ensures
            final(self).wf(),
            final(self)@ == old(self)@.disconnected(),
    {
        match &mut self.reader {
            Some(reader) => reader.invalidate_socket(),
            None => {},
        }
        match &mut self.writer {
            Some(writer) => writer.invalidate_socket(),
            None => {},
        }
        self.socket_alive = false;
    }

    /// Gives the socket up. Says whether to open the connection again, which is so
    /// unless the client is shutting down.
    pub fn close_and_maybe_reconnect(&mut self) -> (r: bool)
        requires
            old(self).wf(),
        ensures
            final(self).wf(),
            final(self)@ == old(self)@.disconnected(),
            r == !old(self)@.shutting_down,
    {
        self.invalidate();
        !self.shutting_down
    }

    /// Notes that the client is shutting down, so that nothing is written any more
    /// and the connection is not opened again.
    pub fn begin_shutdown(&mut self)
        requires
            old(self).wf(),
        ensures
            final(self).wf(),
            final(self)@ == (ConnectionView { shutting_down: true, ..old(self)@ }),
    {
        self.shutting_down = true;
    }

    /// Gives up the socket and the two streams for good.
    pub fn shutdown(&mut self)
        requires
            old(self).wf(),
        ensures
            final(self).wf(),
            final(self)@ == (ConnectionView {
                reader: None,
                writer: None,
                socket_alive: false,
                shutting_down: true,
                ..old(self)@
            }),
    {
        self.shutting_down = true;
        self.reader = None;
        self.writer = None;
        self.socket_alive = false;
    }

    /// Whether an attempt to open the connection again makes sense.
    pub fn wants_reconnect(&self) -> (r: bool)
        ensures
            r == (!self@.socket_alive && !self@.shutting_down),
    {
        !self.socket_alive && !self.shutting_down
    }

    /// Takes note of how an attempt to open the connection again went. Says whether
    /// to try once more, after a pause.
    pub fn finish_reconnect(&mut self, outcome: RecoverOutcome) -> (r: bool)
        requires
            old(self).wf(),
        ensures
            final(self).wf(),
            r == (outcome == RecoverOutcome::Failed),
            final(self)@ == (match outcome {
                RecoverOutcome::Recovered => ConnectionView { socket_alive: true, ..old(self)@ },
                RecoverOutcome::SessionEnded => ConnectionView {
                    shutting_down: true,
                    ..old(self)@
                },
                RecoverOutcome::Failed => old(self)@,
            }),
    {
        match outcome {
            RecoverOutcome::Recovered => {
                self.socket_alive = true;
                false
            },
            RecoverOutcome::SessionEnded => {
                self.shutting_down = true;
                false
            },
            RecoverOutcome::Failed => true,
        }
    }

    /// The message that tells the server how many packets have been received, in 32
    /// bits.
    pub fn sequence_header(&self) -> (r: SequenceHeader)
        ensures
            r@ == self@.header(),
            match self@.reader {
                Some(reader) => 0 <= reader.sequence_number <= i32::MAX ==> (r.sequence_number
                    matches Some(n) && n == reader.sequence_number),
                None => r.sequence_number == Some(0i32),
            },
            self@.reader matches Some(reader) ==> (r.sequence_number matches Some(n) && n as i64
                & 0xffff_ffffi64 == reader.sequence_number as i64 & 0xffff_ffffi64),
    {
        let count: i64 = self.received_count();
        let low: i32 = #[verifier::truncate] (count as i32);
        assert(low as i64 & 0xffff_ffffi64 == count & 0xffff_ffffi64) by (bit_vector)
            requires
                low == count as i32,
        ;
        SequenceHeader { sequence_number: Some(low) }
    }

    /// The packets that the server has missed, where it has told how many it has
    /// received.
    pub fn catchup_for(&self, remote: &SequenceHeader) -> (r: Result<CatchupBuffer, RecoverError>)
        requires
            self.wf(),
        ensures
            match r {
                Ok(c) => self@.catchup_for(remote@) == Ok::<Seq<Seq<u8>>, RecoverError>(c@.buffer),
                Err(e) => self@.catchup_for(remote@) == Err::<Seq<Seq<u8>>, RecoverError>(e),
            },
    {
        let count: i64 = match remote.sequence_number {
            Some(n) => n as i64,
            None => 0,
        };
        match &self.writer {
            Some(w) => match w.recover(count) {
                Ok(buffer) => Ok(CatchupBuffer { buffer }),
                Err(e) => Err(e),
            },
            None => {
                let r = CatchupBuffer { buffer: Vec::new() };
                assert(r@.buffer =~= Seq::empty());
                Ok(r)
            },
        }
    }

    /// Goes on with a new socket, after the packets that the server sent again.
    pub fn revive(&mut self, catchup: CatchupBuffer)
        requires
            old(self).wf(),
            old(self)@.received_count() + catchup@.buffer.len() <= i64::MAX,
        ensures
            final(self).wf(),
            final(self)@ == old(self)@.revived(catchup@.buffer),
    {
        match &mut self.reader {
            Some(reader) => reader.revive(catchup.buffer),
            None => {},
        }
        match &mut self.writer {
            Some(writer) => writer.revive(),
            None => {},
        }
    }
}

/// The text of a server's address.
pub open spec fn address_text(host: Seq<char>, port: u16) -> Seq<char> {
    host + ":"@ + text::decimal(port as nat)
}

/// The text of a server's address.
pub fn socket_address(host: &str, port: u16) -> (r: String)
    ensures
        r@ == address_text(host@, port),
        r@ == host@ + seq![':'] + text::decimal(port as nat),
{
    proof {
        reveal_strlit(":");
        assert(":"@ =~= seq![':']);
    }
    let mut r: String = host.to_owned();
    r.append(":");
    let digits: String = text::decimal_string(port as u64);
    r.append(digits.as_str());
    r
}

/// Why no address of a server could be reached.
#[derive(Debug)]
pub enum TcpError<E> {
    /// The attempt at the last address failed.
    Attempt(E),
    /// The server has no address. Holds what was looked up.
    Unresolved(String),
}

/// The place of the first attempt that succeeded.
pub open spec fn first_success<S, E>(attempts: Seq<Result<S, E>>) -> Option<int>
    decreases attempts.len(),
{
    if attempts.len() == 0 {
        None
    } else {
        match first_success(attempts.drop_last()) {
            Some(i) => Some(i),
            None => if attempts.last() is Ok {
                Some(attempts.len() - 1)
            } else {
                None
            },
        }
    }
}

/// What comes of trying the addresses of a server one after the other: the first
/// connection, else the error of the last attempt.
pub fn tcp_connect<S, E>(address: &str, attempts: Vec<Result<S, E>>) -> (r: Result<S, TcpError<E>>)
    ensures
        match first_success(attempts@) {
            Some(i) => {
                &&& 0 <= i < attempts@.len()
                &&& attempts@[i] matches Ok(s)
                &&& r == Ok::<S, TcpError<E>>(s)
            },
            None => if attempts@.len() > 0 {
                attempts@.last() matches Err(e) && r == Err::<S, TcpError<E>>(TcpError::Attempt(e))
            } else {
                r matches Err(TcpError::Unresolved(a)) && a@ == address@
            },
        },
        r is Err <==> forall|i: int| 0 <= i < attempts@.len() ==> #[trigger] attempts@[i] is Err,
        r matches Ok(s) ==> exists|i: int|
            0 <= i < attempts@.len() && #[trigger] attempts@[i] == Ok::<S, E>(s) && forall|j: int|
                0 <= j < i ==> #[trigger] attempts@[j] is Err,
{
    let mut last_error: Option<E> = None;
    let ghost all = attempts@;
    for attempt in it: attempts
        invariant
            it.seq() == all,
            first_success(all.take(it.index() as int)) is None,
            last_error == (if it.index() == 0 {
                None::<E>
            } else {
                match all[it.index() - 1] {
                    Ok(_) => None::<E>,
                    Err(e) => Some(e),
                }
            }),
            forall|j: int| 0 <= j < it.index() ==> #[trigger] all[j] is Err,
    {
        let ghost k = it.index() as int;
        assert(all.take(k + 1).drop_last() =~= all.take(k));
        match attempt {
            Ok(s) => {
                proof {
                    lemma_success_stays(all, k + 1);
                    assert(all[k] == Ok::<S, E>(s));
                }
                return Ok(s);
            },
            Err(e) => {
                last_error = Some(e);
            },
        }
    }
    assert(all.take(all.len() as int) =~= all);
    match last_error {
        Some(e) => Err(TcpError::Attempt(e)),
        None => Err(TcpError::Unresolved(address.to_owned())),
    }
}

proof fn lemma_success_stays<S, E>(attempts: Seq<Result<S, E>>, k: int)
    requires
        0 <= k <= attempts.len(),
        first_success(attempts.take(k)) is Some,
    ensures
        first_success(attempts) == first_success(attempts.take(k)),
    decreases attempts.len() - k,
{
    if k < attempts.len() {
        assert(attempts.take(k + 1).drop_last() =~= attempts.take(k));
        lemma_success_stays(attempts, k + 1);
    } else {
        assert(attempts.take(k) =~= attempts);
    }
}

/// Whether a server can be reached.
pub fn ping_server<S, E>(attempt: &Result<S, TcpError<E>>) -> (r: bool)
    ensures
        r == (attempt is Ok),
{
    match attempt {
        Ok(_) => true,
        Err(_) => false,
    }
}

/// The message that a connection sends tells how many packets its reader has received,
/// as long as 32 bits can hold that.
pub proof fn the_header_tells_what_was_received(c: ConnectionView)
    ensures
        match c.reader {
            Some(r) => 0 <= r.sequence_number <= i32::MAX ==> (c.header().sequence_number matches Some(
                n,
            ) && n == r.sequence_number),
            None => c.header().sequence_number == Some(0i32),
        },
{
}

/// Losing the socket takes nothing but the socket from a connection.
pub proof fn losing_the_socket_loses_nothing_else(c: ConnectionView)
    ensures
        ({
            let after = c.disconnected();
            &&& !after.socket_alive
            &&& after == (ConnectionView {
                reader: after.reader,
                writer: after.writer,
                socket_alive: false,
                ..c
            })
            &&& c.reader is None ==> after.reader is None
            &&& c.writer is None ==> after.writer is None
            &&& c.reader matches Some(r) ==> after.reader == Some(
                ReaderView { connected: false, ..r },
            )
            &&& c.writer matches Some(w) ==> after.writer == Some(
                WriterView { connected: false, ..w },
            )
        }),
{
}

/// A connection that is opened starts with nothing received and nothing taken. What comes
/// in is decrypted under nonces that start from 1 in the last byte, what goes out is
/// encrypted under nonces that start from 0 there; all other bytes start from 0.
pub proof fn an_open_connection_starts_afresh(c: ConnectionView, i: int)
    ensures
        ({
            let after = c.opened();
            let r = after.reader->Some_0;
            let w = after.writer->Some_0;
            &&& after == (ConnectionView {
                reader: after.reader,
                writer: after.writer,
                socket_alive: true,
                ..c
            })
            &&& after.reader is Some && after.writer is Some
            &&& r.connected && r.sequence_number == 0 && r.partial.len() == 0
                && r.local_buffer.len() == 0
            &&& w.connected && w.sequence_number == 0 && w.taken.len() == 0 && w.backup.len() == 0
                && w.backup_size == 0 && w.disconnected_bytes == 0
            &&& r.cipher.key == c.key && w.cipher.key == c.key && w.origin == w.cipher
            &&& r.cipher.nonce.len() == 24 && w.cipher.nonce.len() == 24
            &&& 0 <= i < 24 ==> r.cipher.nonce[i] == (if i == 23 {
                1u8
            } else {
                0u8
            }) && w.cipher.nonce[i] == 0
        }),
{
}

/// A connection that goes on with a new socket has all that it had, and behind what is
/// still to be handed out the packets that the server sent again, which are counted. Half
/// a frame from the old socket is dropped.
pub proof fn a_new_socket_goes_on_with_what_was_missed(c: ConnectionView, catchup: Seq<Seq<u8>>)
    ensures
        ({
            let after = c.revived(catchup);
            &&& after == (ConnectionView { reader: after.reader, writer: after.writer, ..c })
            &&& c.reader is None ==> after.reader is None
            &&& c.writer is None ==> after.writer is None
            &&& c.reader matches Some(r) ==> after.reader == Some(
                ReaderView {
                    cipher: r.cipher,
                    connected: true,
                    sequence_number: r.sequence_number + catchup.len(),
                    partial: Seq::empty(),
                    local_buffer: r.local_buffer + catchup,
                },
            )
            &&& c.writer matches Some(w) ==> after.writer == Some(
                WriterView { connected: true, disconnected_bytes: 0, ..w },
            )
        }),
{
}

/// What a connection sends again is what its writer has for a server that has received as
/// many packets as it says, or none where it does not say.
pub proof fn a_server_is_sent_what_it_missed(c: ConnectionView, n: i32)
    ensures
        c.writer matches Some(w) ==> c.catchup_for(SequenceHeaderView { sequence_number: Some(n) })
            == w.recovery(n as int) && c.catchup_for(SequenceHeaderView { sequence_number: None })
            == w.recovery(0),
        c.writer is None ==> c.catchup_for(SequenceHeaderView { sequence_number: Some(n) }) == Ok::<
            Seq<Seq<u8>>,
            RecoverError,
        >(Seq::empty()),
{
}

/// Reconnecting goes on where the connection broke off. The two ends tell each other how
/// many packets they have received, and send again what the other has missed, as long as
/// they still have it. Then both are in step again: each is about to hand out, in order,
/// just the packets that the other took and that it has not handed out before.
pub proof fn reconnecting_continues_the_session(
    c: ConnectionView,
    peer_writer: WriterView,
    peer_reader: ReaderView,
    heard: SequenceHeaderView,
)
    requires
        c.reader is Some,
        c.writer is Some,
        c.writer->Some_0.wf(),
        peer_writer.wf(),
        recovery::in_step(c.writer->Some_0, peer_reader),
        recovery::in_step(peer_writer, c.reader->Some_0),
        !c.writer->Some_0.connected,
        !peer_writer.connected,
        c.reader->Some_0.sequence_number <= i32::MAX,
        heard.sequence_number is Some,
        heard.sequence_number->Some_0 == peer_reader.sequence_number,
        c.writer->Some_0.taken.len() - peer_reader.sequence_number
            <= c.writer->Some_0.backup.len(),
        peer_writer.taken.len() - c.reader->Some_0.sequence_number <= peer_writer.backup.len(),
    ensures
        ({
            &&& c.header().sequence_number matches Some(told)
            &&& peer_writer.recovery(told as int) matches Ok(incoming)
            &&& c.catchup_for(heard) matches Ok(outgoing)
            &&& {
                let after = c.revived(incoming);
                let peer = peer_reader.revived(outgoing);
                &&& recovery::in_step(after.writer->Some_0, peer)
                &&& recovery::in_step(peer_writer, after.reader->Some_0)
                &&& after.reader->Some_0.sequence_number == peer_writer.taken.len()
                &&& peer.sequence_number == c.writer->Some_0.taken.len()
                &&& recovery::pending(after.reader->Some_0) == peer_writer.taken.skip(
                    recovery::handed_out(c.reader->Some_0),
                )
                &&& recovery::pending(peer) == c.writer->Some_0.taken.skip(
                    recovery::handed_out(peer_reader),
                )
            }
        }),
{
    let w = c.writer->Some_0;
    the_header_tells_what_was_received(c);
    recovery::reconnecting_loses_nothing(w, peer_reader);
    recovery::reconnecting_loses_nothing(peer_writer, c.reader->Some_0);
    let outgoing = c.catchup_for(heard)->Ok_0;
    let peer = peer_reader.revived(outgoing);
    let after = WriterView { connected: true, disconnected_bytes: 0, ..w };
    assert forall|i: int| 0 <= i < peer.local_buffer.len() implies #[trigger] peer.local_buffer[i]
        == after.sealed(recovery::handed_out(peer) + i).serialized() by {}
}

/// How long a connection waits, in milliseconds: before it writes or reads again, with a
/// socket that is busy and without a socket; between two attempts to get a new one; and for
/// one to open.
pub proof fn times_of_a_connection()
    ensures
        BUSY_PAUSE_MS == 1,
        OFFLINE_PAUSE_MS == 100,
        RECONNECT_PAUSE_MS == 1000,
        CONNECT_TIMEOUT_MS == 10_000,
        backed::RETRY_PAUSE_MS == 1,
{
}

/// The request tells the id of the session, and version 6 of the protocol.
pub proof fn a_request_tells_the_session(c: ConnectionView)
    ensures
        c.request().client_id == Some(c.id),
        c.request().version == Some(6i32),
        c.disconnected().request() == c.request(),
        c.opened().request() == c.request(),
{
}

/// A packet that was sent or buffered is done with. One that was taken while the socket broke
/// asks for a new socket. One that was skipped is to be written again, after a while that is
/// longer without a socket.
pub proof fn what_became_of_a_packet(socket_alive: bool)
    ensures
        action_after(WriteState::Success, socket_alive) == WriteAction::Finished(true),
        action_after(WriteState::BufferedOnly, socket_alive) == WriteAction::Finished(true),
        action_after(WriteState::WroteWithFailure, socket_alive) == WriteAction::Reconnect(1),
        action_after(WriteState::Skipped, true) == WriteAction::Wait(1),
        action_after(WriteState::Skipped, false) == WriteAction::Wait(100),
{
}

} // verus!

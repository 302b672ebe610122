//! The two ends of a recoverable stream: packets are numbered and encrypted, and
//! the writer keeps the last ones so that it can send them again after a
//! reconnect.
//!
//! The sockets themselves are not held here. A writer or reader says which bytes
//! to send or how many to receive, and is told what came of it.

use std::collections::VecDeque;

use vstd::prelude::*;

use crate::byte_order;
use crate::byte_order::ByteOrder;
use crate::crypto;
use crate::crypto::{CipherState, CryptoHandler};
use crate::io;
use crate::io::IoErrorKind;
use crate::packet;
use crate::packet::{Packet, PacketError, PacketView};
use crate::proto::wire;

verus! {

/// How many bytes of packets a connected writer keeps.
pub const MAX_BACKUP_BYTES: usize = 67_108_864;

/// How many bytes of packets a writer takes while it is disconnected.
pub const DISCONNECT_BUFFER_BYTES: usize = 67_108_864;

/// The number of bytes of the length before a packet.
pub const LENGTH_LEN: usize = 4;

/// What became of a packet that was to be written.
#[derive(Debug, Clone, Copy, PartialEq, Eq, Structural)]
pub enum WriteState {
    /// It was sent.
    Success,
    /// It was kept, to be sent after the next reconnect.
    BufferedOnly,
    /// It could not be encrypted or sent.
    WroteWithFailure,
    /// There was no room for it; it was not taken.
    Skipped,
}

/// Why nothing can be sent again.
#[derive(Debug, Clone, Copy, PartialEq, Eq, Structural)]
pub enum RecoverError {
    /// The socket is still alive.
    SocketAlive,
    /// The peer has received more than was written.
    PeerAhead,
    /// The peer has missed more than was kept.
    PeerTooFarBehind,
}

/// Why nothing could be read.
#[derive(Debug, Clone, Copy, PartialEq, Eq, Structural)]
pub enum ReadError {
    /// The peer has closed the connection.
    ConnectionClosed,
    /// The socket failed.
    Io(IoErrorKind),
    /// What was received is not a packet of this stream.
    Packet(PacketError),
}

/// What the writer needs next.
#[derive(Debug)]
pub enum WriteStep {
    /// Nothing: the packet has been dealt with.
    Done(WriteState),
    /// These bytes are to be sent, and the outcome reported.
    Send(Vec<u8>),
}

/// The number of bytes of some packets.
pub open spec fn total_length(packets: Seq<PacketView>) -> nat
    decreases packets.len(),
{
    if packets.len() == 0 {
        0
    } else {
        total_length(packets.drop_last()) + packets.last().length()
    }
}

/// What is kept of some packets, the newest first: the oldest go until the rest
/// is no longer than the limit.
pub open spec fn trimmed(packets: Seq<PacketView>) -> Seq<PacketView>
    decreases packets.len(),
{
    if packets.len() == 0 || total_length(packets) <= MAX_BACKUP_BYTES {
        packets
    } else {
        trimmed(packets.drop_last())
    }
}

/// A packet on the stream: the low 32 bits of its length, the most significant
/// byte first, and its bytes.
pub open spec fn framed(serialized: Seq<u8>) -> Seq<u8> {
    byte_order::int_bytes(ByteOrder::Big, serialized.len(), LENGTH_LEN as nat) + serialized
}

/// Packet `k` of a stream that starts with the cipher `origin`, encrypted as
/// message `k`.
pub open spec fn sealed_packet(origin: CipherState, packets: Seq<PacketView>, k: int) -> PacketView {
    packets[k].sealed(origin.after(k as nat))
}

/// The last `count` packets of a stream, encrypted, the newest first.
pub open spec fn newest(origin: CipherState, packets: Seq<PacketView>, count: nat) -> Seq<
    PacketView,
> {
    Seq::new(count, |i: int| sealed_packet(origin, packets, packets.len() - 1 - i))
}

/// The state of a writer.
#[verifier::ext_equal]
pub struct WriterView {
    /// The cipher before the first packet.
    pub origin: CipherState,
    /// The cipher now.
    pub cipher: CipherState,
    pub connected: bool,
    /// The packets that are kept, encrypted, the newest first.
    pub backup: Seq<PacketView>,
    /// The number of bytes of those packets.
    pub backup_size: nat,
    pub disconnected_bytes: nat,
    /// How many packets were ever taken.
    pub sequence_number: int,
    /// All packets that were ever taken, in the clear, the oldest first.
    pub taken: Seq<PacketView>,
}

impl WriterView {
    /// The `k`-th packet that was taken, encrypted as message `k` of the stream.
    pub open spec fn sealed(self, k: int) -> PacketView {
        sealed_packet(self.origin, self.taken, k)
    }

    /// What holds of every writer: the counters and the cipher have counted the
    /// packets that were taken, each of them decrypts back, and those that are kept are the last of
    /// them, as many as the limit allows at least.
    pub open spec fn wf(self) -> bool {
        let n = self.taken.len();
        &&& self.sequence_number == n
        &&& self.backup_size == total_length(self.backup)
        &&& self.cipher == self.origin.after(n)
        &&& self.backup.len() <= n <= i64::MAX
        &&& self.disconnected_bytes <= DISCONNECT_BUFFER_BYTES + crypto::MAC_LEN
        &&& self.backup_size <= usize::MAX
        &&& forall|k: int|
            0 <= k < n ==> packet::opened(
                #[trigger] sealed_packet(self.origin, self.taken, k),
                self.origin.after(k as nat),
            ) == Ok::<PacketView, PacketError>(self.taken[k])
        &&& self.backup == newest(self.origin, self.taken, self.backup.len())
        &&& self.backup.len() < n ==> total_length(
            newest(self.origin, self.taken, self.backup.len() + 1),
        ) > MAX_BACKUP_BYTES
    }

    /// Whether a disconnected writer has no room for a packet.
    pub open spec fn full_for(self, p: PacketView) -> bool {
        !self.connected && self.disconnected_bytes + p.length() > DISCONNECT_BUFFER_BYTES
    }

    /// Whether the counters of the writer have room for one more packet.
    pub open spec fn has_room(self, p: PacketView) -> bool {
        &&& self.sequence_number < i64::MAX
        &&& self.backup_size + p.length() + crypto::MAC_LEN <= usize::MAX
    }

    /// Whether a packet can be encrypted.
    pub open spec fn takes(self, p: PacketView) -> bool {
        !p.encrypted && !crypto::too_long(p.payload.len())
    }

    /// A writer once it has taken a packet.
    pub open spec fn after_write(self, p: PacketView) -> WriterView {
        let sealed = p.sealed(self.cipher);
        let all = seq![sealed] + self.backup;
        let backup = if self.connected {
            trimmed(all)
        } else {
            all
        };
        WriterView {
            origin: self.origin,
            cipher: self.cipher.after(1),
            connected: self.connected,
            backup,
            backup_size: total_length(backup),
            disconnected_bytes: if self.connected {
                self.disconnected_bytes
            } else {
                self.disconnected_bytes + sealed.length()
            },
            sequence_number: self.sequence_number + 1,
            taken: self.taken.push(p),
        }
    }

    /// What a peer that has received `last` packets has missed, each packet in
    /// its serialized form, the oldest first.
    pub open spec fn recovery(self, last: int) -> Result<Seq<Seq<u8>>, RecoverError> {
        let missed = self.sequence_number - last;
        if self.connected {
            Err(RecoverError::SocketAlive)
        } else if missed < 0 {
            Err(RecoverError::PeerAhead)
        } else if missed > self.backup.len() {
            Err(RecoverError::PeerTooFarBehind)
        } else {
            Ok(Seq::new(missed as nat, |i: int| self.backup[missed - 1 - i].serialized()))
        }
    }
}

proof fn lemma_total_front(p: PacketView, rest: Seq<PacketView>)
    ensures
        total_length(seq![p] + rest) == p.length() + total_length(rest),
    decreases rest.len(),
{
    let s = seq![p] + rest;
    if rest.len() == 0 {
        assert(s.drop_last() =~= Seq::empty());
        assert(total_length(s.drop_last()) == 0);
    } else {
        lemma_total_front(p, rest.drop_last());
        assert(s.drop_last() =~= seq![p] + rest.drop_last());
    }
}

/// Trimming takes packets from the end, and none that it need not.
pub proof fn trimming_keeps_the_newest(packets: Seq<PacketView>)
    ensures
        trimmed(packets).len() <= packets.len(),
        trimmed(packets) == packets.take(trimmed(packets).len() as int),
        total_length(trimmed(packets)) <= MAX_BACKUP_BYTES,
        total_length(trimmed(packets)) <= total_length(packets),
        trimmed(packets).len() < packets.len() ==> total_length(
            packets.take(trimmed(packets).len() as int + 1),
        ) > MAX_BACKUP_BYTES,
    decreases packets.len(),
{
    if packets.len() == 0 || total_length(packets) <= MAX_BACKUP_BYTES {
        assert(packets.take(packets.len() as int) =~= packets);
    } else {
        let shorter = packets.drop_last();
        trimming_keeps_the_newest(shorter);
        let n = trimmed(packets).len() as int;
        assert(shorter.take(n) =~= packets.take(n));
        if n < shorter.len() {
            assert(shorter.take(n + 1) =~= packets.take(n + 1));
        } else {
            assert(packets.take(n + 1) =~= packets);
        }
    }
}

/// Taking a packet keeps the writer well-formed.
proof fn lemma_after_write_wf(w: WriterView, p: PacketView)
    requires
        w.wf(),
        w.takes(p),
        !w.full_for(p),
        w.has_room(p),
        p.sealed(w.cipher).payload.len() == p.payload.len() + crypto::MAC_LEN,
        packet::opened(p.sealed(w.cipher), w.cipher) == Ok::<PacketView, PacketError>(p),
    ensures
        w.after_write(p).wf(),
{
    let n = w.taken.len();
    let after = w.after_write(p);
    let sealed = p.sealed(w.cipher);
    let all = seq![sealed] + w.backup;
    crypto::counting_adds_up(w.origin, n, 1);
    lemma_total_front(sealed, w.backup);
    trimming_keeps_the_newest(all);
    assert(after.sealed(n as int) == sealed);
    assert forall|k: int| 0 <= k <= n implies packet::opened(
        #[trigger] sealed_packet(after.origin, after.taken, k),
        w.origin.after(k as nat),
    ) == Ok::<PacketView, PacketError>(after.taken[k]) by {
        if k < n {
            assert(after.sealed(k) == w.sealed(k));
        }
    }
    let k = w.backup.len();
    assert forall|m: nat| m <= n implies #[trigger] newest(after.origin, after.taken, m + 1)
        == seq![sealed] + newest(w.origin, w.taken, m) by {
        assert(newest(after.origin, after.taken, m + 1) =~= seq![sealed] + newest(
            w.origin,
            w.taken,
            m,
        ));
    }
    assert(all == newest(after.origin, after.taken, k + 1));
    let j = after.backup.len();
    assert(all.take(j as int) =~= newest(after.origin, after.taken, j));
    if j <= k {
        assert(all.take(j as int + 1) =~= newest(after.origin, after.taken, j + 1));
    } else if k < n {
        assert(newest(after.origin, after.taken, k + 2) == seq![sealed] + newest(
            w.origin,
            w.taken,
            k + 1,
        ));
        lemma_total_front(sealed, newest(w.origin, w.taken, k + 1));
    }
}

/// The writing end of a stream.
pub struct BackedWriter {
    crypto: CryptoHandler,
    connected: bool,
    backup: VecDeque<Packet>,
    backup_size: usize,
    disconnected_bytes: usize,
    sequence_number: i64,
    origin: Ghost<CipherState>,
    taken: Ghost<Seq<PacketView>>,
}

/// The views of some byte strings.
pub open spec fn byte_views(b: Seq<Vec<u8>>) -> Seq<Seq<u8>> {
    b.map_values(|v: Vec<u8>| v@)
}

/// The views of some packets.
pub open spec fn packet_views(packets: Seq<Packet>) -> Seq<PacketView> {
    packets.map_values(|p: Packet| p@)
}

impl View for BackedWriter {
    type V = WriterView;

    closed spec fn view(&self) -> WriterView {
        WriterView {
            origin: self.origin@,
            cipher: self.crypto@,
            connected: self.connected,
            backup: packet_views(self.backup@),
            backup_size: self.backup_size as nat,
            disconnected_bytes: self.disconnected_bytes as nat,
            sequence_number: self.sequence_number as int,
            taken: self.taken@,
        }
    }
}

impl BackedWriter {
    /// What holds of every writer.
    pub open spec fn wf(self) -> bool {
        self@.wf()
    }

    /// A writer that is connected and has written nothing.
    pub fn new(crypto: CryptoHandler) -> (r: BackedWriter)
        ensures
            r.wf(),
            r@ == (WriterView {
                origin: crypto@,
                cipher: crypto@,
                connected: true,
                backup: Seq::empty(),
                backup_size: 0,
                disconnected_bytes: 0,
                sequence_number: 0,
                taken: Seq::empty(),
            }),
    {
        let ghost origin = crypto@;
        let r = BackedWriter {
            crypto,
            connected: true,
            backup: VecDeque::new(),
            backup_size: 0,
            disconnected_bytes: 0,
            sequence_number: 0,
            origin: Ghost(origin),
            taken: Ghost(Seq::empty()),
        };
        proof {
            crypto::counting_none(origin);
            assert(r@.backup =~= Seq::empty());
            assert(newest(origin, Seq::empty(), 0) =~= Seq::empty());
        }
        r
    }

    /// Notes that the socket is gone.
    pub fn invalidate_socket(&mut self)
        requires
            old(self).wf(),
        ensures
            final(self).wf(),
            final(self)@ == (WriterView { connected: false, ..old(self)@ }),
    {
        self.connected = false;
    }

    /// Whether the counters of the writer have room for `packet`. They overflow
    /// only after more packets than a machine can hold.
    pub fn can_count(&self, packet: &Packet) -> (r: bool)
        requires
            self.wf(),
        ensures
            r == self@.has_room(packet@),
    {
        let len: usize = packet.payload().len();
        let overhead: usize = packet::HEADER_LEN + crypto::MAC_LEN;
        self.sequence_number < i64::MAX && len <= usize::MAX - overhead && self.backup_size
            <= usize::MAX - overhead - len
    }

    /// Drops the oldest packets until the rest is no longer than the limit.
    fn trim(&mut self)
        requires
            old(self)@.backup_size == total_length(old(self)@.backup),
        ensures
            final(self)@ == (WriterView {
                backup: trimmed(old(self)@.backup),
                backup_size: total_length(trimmed(old(self)@.backup)),
                ..old(self)@
            }),
    {
        let ghost goal = trimmed(self@.backup);
        while self.backup_size > MAX_BACKUP_BYTES
            invariant
                self.backup_size == total_length(self@.backup),
                trimmed(self@.backup) == goal,
                self@ == (WriterView {
                    backup: self@.backup,
                    backup_size: self@.backup_size,
                    ..old(self)@
                }),
            decreases self.backup@.len(),
        {
            let ghost before = self@.backup;
            match self.backup.pop_back() {
                Some(oldest) => {
                    assert(before.drop_last() =~= packet_views(self.backup@));
                    self.backup_size = self.backup_size - oldest.length();
                },
                None => {
                    assert(before.len() == 0);
                },
            }
        }
    }

    /// Takes a packet: encrypts it, keeps it, and hands out the bytes to send,
    /// where there is a socket. What became of them goes to `finish_write`.
    pub fn write(&mut self, packet: Packet) -> (r: WriteStep)
        requires
            old(self).wf(),
            old(self)@.has_room(packet@),
        ensures
            final(self).wf(),
            ({
                let before = old(self)@;
                let plain = !packet@.encrypted && packet@.payload.len() + 16 <= isize::MAX;
                let fits = before.disconnected_bytes + 2 + packet@.payload.len() <= 67_108_864;
                &&& r == WriteStep::Done(WriteState::Skipped) <==> !before.connected && !fits
                &&& r == WriteStep::Done(WriteState::WroteWithFailure) <==> !plain && (
                before.connected || fits)
                &&& r == WriteStep::Done(WriteState::BufferedOnly) <==> plain && !before.connected
                    && fits
                &&& r is Send <==> plain && before.connected
                &&& r != WriteStep::Done(WriteState::Success)
                &&& plain && (before.connected || fits) ==> {
                    &&& final(self)@.taken == before.taken.push(packet@)
                    &&& final(self)@.sequence_number == before.sequence_number + 1
                    &&& final(self)@.connected == before.connected
                    &&& final(self)@.disconnected_bytes == (if before.connected {
                        before.disconnected_bytes
                    } else {
                        before.disconnected_bytes + 2 + packet@.payload.len() + 16
                    })
                }
                &&& !(plain && (before.connected || fits)) ==> final(self)@ == before
            }),
            final(self)@ == (if old(self)@.full_for(packet@) || !old(self)@.takes(packet@) {
                old(self)@
            } else {
                old(self)@.after_write(packet@)
            }),
            match r {
                WriteStep::Done(state) => state == (if old(self)@.full_for(packet@) {
                    WriteState::Skipped
                } else if !old(self)@.takes(packet@) {
                    WriteState::WroteWithFailure
                } else {
                    WriteState::BufferedOnly
                }) && (state == WriteState::BufferedOnly ==> !old(self)@.connected),
                WriteStep::Send(frame) => old(self)@.connected && old(self)@.takes(packet@)
                    && frame@ == framed(packet@.sealed(old(self)@.cipher).serialized()),
            },
            r matches WriteStep::Send(frame) ==> {
                let body = old(self)@.cipher.seal_next(packet@.payload);
                &&& frame@.len() == 4 + 2 + packet@.payload.len() + 16
                &&& frame@.skip(4) == seq![1u8, packet@.header] + body
                &&& frame@.len() < 0x1_0000_0000 ==> frame@[0] * 0x100_0000 + frame@[1] * 0x1_0000
                    + frame@[2] * 0x100 + frame@[3] == frame@.len() - 4
            },
    {
        let mut packet = packet;
        let len: usize = packet.length();
        if !self.connected && (len > DISCONNECT_BUFFER_BYTES || self.disconnected_bytes
            > DISCONNECT_BUFFER_BYTES - len) {
            return WriteStep::Done(WriteState::Skipped);
        }
        let ghost plain = packet@;
        match packet.encrypt(&mut self.crypto) {
            Ok(_) => {},
            Err(_) => {
                return WriteStep::Done(WriteState::WroteWithFailure);
            },
        }
        proof {
            lemma_total_front(packet@, old(self)@.backup);
            lemma_after_write_wf(old(self)@, plain);
        }
        self.backup.push_front(packet.clone());
        self.backup_size = self.backup_size + packet.length();
        self.sequence_number = self.sequence_number + 1;
        proof {
            self.taken@ = self.taken@.push(plain);
            assert(self@.backup =~= seq![packet@] + old(self)@.backup);
        }
        if self.connected {
            self.trim();
            let serialized: Vec<u8> = packet.serialize();
            let mut frame: Vec<u8> = byte_order::to_bytes(
                ByteOrder::Big,
                serialized.len() as u64,
                LENGTH_LEN,
            );
            wire::put_slice(&mut frame, serialized.as_slice());
            proof {
                a_length_goes_before_a_packet(serialized@);
                assert(serialized@ =~= seq![1u8, packet@.header] + packet@.payload);
            }
            WriteStep::Send(frame)
        } else {
            self.disconnected_bytes = self.disconnected_bytes + packet.length();
            WriteStep::Done(WriteState::BufferedOnly)
        }
    }

    /// Takes note of whether the bytes of the last packet were sent. Where they
    /// were not, the socket is gone.
    pub fn finish_write(&mut self, sent: bool) -> (r: WriteState)
        requires
            old(self).wf(),
        ensures
            final(self).wf(),
            final(self)@ == (if sent {
                old(self)@
            } else {
                WriterView { connected: false, ..old(self)@ }
            }),
            r == (if sent {
                WriteState::Success
            } else {
                WriteState::WroteWithFailure
            }),
    {
        if sent {
            WriteState::Success
        } else {
            self.connected = false;
            WriteState::WroteWithFailure
        }
    }

    /// The packets that a peer that has received `last_valid_sequence` of them
    /// has missed, encrypted and serialized, the oldest first.
    pub fn recover(&self, last_valid_sequence: i64) -> (r: Result<Vec<Vec<u8>>, RecoverError>)
        requires
            self.wf(),
        ensures
            match r {
                Ok(b) => self@.recovery(last_valid_sequence as int) == Ok::<
                    Seq<Seq<u8>>,
                    RecoverError,
                >(byte_views(b@)),
                Err(e) => self@.recovery(last_valid_sequence as int) == Err::<
                    Seq<Seq<u8>>,
                    RecoverError,
                >(e),
            },
            r matches Err(e) ==> e == (if self@.connected {
                RecoverError::SocketAlive
            } else if last_valid_sequence > self@.sequence_number {
                RecoverError::PeerAhead
            } else {
                RecoverError::PeerTooFarBehind
            }),
            r is Ok <==> !self@.connected && 0 <= self@.sequence_number - last_valid_sequence
                <= self@.backup.len(),
            r matches Ok(b) ==> {
                &&& b@.len() == self@.sequence_number - last_valid_sequence
                &&& forall|i: int|
                    0 <= i < b@.len() ==> {
                        let p = self@.backup[b@.len() - 1 - i];
                        &&& (#[trigger] b@[i])@.len() == 2 + p.payload.len()
                        &&& b@[i]@[0] == 1
                        &&& b@[i]@[1] == p.header
                        &&& b@[i]@.skip(2) == p.payload
                    }
            },
    {
        if self.connected {
            return Err(RecoverError::SocketAlive);
        }
        if last_valid_sequence > self.sequence_number {
            return Err(RecoverError::PeerAhead);
        }
        if last_valid_sequence < 0 {
            return Err(RecoverError::PeerTooFarBehind);
        }
        let missed: u64 = (self.sequence_number - last_valid_sequence) as u64;
        if missed > self.backup.len() as u64 {
            return Err(RecoverError::PeerTooFarBehind);
        }
        let count: usize = missed as usize;
        let mut recovered: Vec<Vec<u8>> = Vec::new();
        let mut left: usize = count;
        let ghost goal = self@.recovery(last_valid_sequence as int)->Ok_0;
        while left > 0
            invariant
                left <= count <= self.backup@.len(),
                self@.backup == packet_views(self.backup@),
                goal == Seq::new(count as nat, |i: int| self@.backup[count - 1 - i].serialized()),
                byte_views(recovered@) == goal.take(count - left),
            decreases left,
        {
            left = left - 1;
            let b: Vec<u8> = self.backup[left].serialize();
            assert(b@ == goal[count - 1 - left]);
            assert(goal.take(count - left) =~= goal.take(count - left - 1).push(b@));
            recovered.push(b);
            assert(byte_views(recovered@) =~= goal.take(count - left));
        }
        assert(goal.take(count as int) =~= goal);
        assert forall|i: int| 0 <= i < recovered@.len() implies ({
            let p = self@.backup[recovered@.len() - 1 - i];
            &&& (#[trigger] recovered@[i])@.len() == 2 + p.payload.len()
            &&& recovered@[i]@[0] == 1
            &&& recovered@[i]@[1] == p.header
            &&& recovered@[i]@.skip(2) == p.payload
        }) by {
            let p = self@.backup[count - 1 - i];
            assert(byte_views(recovered@)[i] == goal[i]);
            assert(p.encrypted);
            assert(recovered@[i]@ =~= seq![1u8, p.header] + p.payload);
            assert(recovered@[i]@.skip(2) =~= p.payload);
        }
        Ok(recovered)
    }

    /// Goes on with a new socket.
    pub fn revive(&mut self)
        requires
            old(self).wf(),
        ensures
            final(self).wf(),
            final(self)@ == (WriterView { connected: true, disconnected_bytes: 0, ..old(self)@ }),
    {
        self.connected = true;
        self.disconnected_bytes = 0;
    }
}

/// What the reader needs next.
#[derive(Debug)]
pub enum ReadStep {
    /// Nothing: there is neither a socket nor anything left from a reconnect.
    Idle,
    /// Up to so many bytes are to be received, and the outcome reported.
    Receive(usize),
    /// Nothing: here is the next packet.
    Packet(Packet),
}

/// How many more bytes the length of a frame or the rest of the frame takes, where
/// `partial` is what has come of it.
pub open spec fn missing(partial: Seq<u8>) -> int {
    if partial.len() < LENGTH_LEN {
        LENGTH_LEN - partial.len()
    } else {
        LENGTH_LEN + byte_order::int_value(ByteOrder::Big, partial.take(LENGTH_LEN as int))
            - partial.len()
    }
}

/// The view of what came of receiving.
pub open spec fn outcome_view(outcome: Result<Vec<u8>, IoErrorKind>) -> Result<
    Seq<u8>,
    IoErrorKind,
> {
    match outcome {
        Ok(b) => Ok(b@),
        Err(kind) => Err(kind),
    }
}

/// What came of receiving means for the reading: whether it goes on, stops for now, or
/// has failed. No bytes mean that the peer has closed the connection.
pub open spec fn reply(outcome: Result<Seq<u8>, IoErrorKind>) -> Result<bool, ReadError> {
    match outcome {
        Ok(b) => if b.len() == 0 {
            Err(ReadError::ConnectionClosed)
        } else {
            Ok(true)
        },
        Err(kind) => if kind == IoErrorKind::WouldBlock || kind == IoErrorKind::TimedOut {
            Ok(false)
        } else if kind == IoErrorKind::Interrupted {
            Ok(true)
        } else {
            Err(ReadError::Io(kind))
        },
    }
}

/// The packet in `serialized`, decrypted as the next one.
pub open spec fn unpacked(serialized: Seq<u8>, c: CipherState) -> Result<PacketView, PacketError> {
    match packet::deserialized(serialized) {
        Ok(p) => packet::opened(p, c),
        Err(e) => Err(e),
    }
}

/// The cipher once `serialized` has been decrypted: only an encrypted packet
/// counts.
pub open spec fn cipher_after(serialized: Seq<u8>, c: CipherState) -> CipherState {
    match packet::deserialized(serialized) {
        Ok(p) if p.encrypted => c.after(1),
        _ => c,
    }
}

/// The state of a reader.
#[verifier::ext_equal]
pub struct ReaderView {
    pub cipher: CipherState,
    pub connected: bool,
    /// How many packets have come, those that are still to be handed out after a
    /// reconnect included.
    pub sequence_number: int,
    /// What has come of the next frame.
    pub partial: Seq<u8>,
    /// The packets that came with a reconnect and are still to be handed out, the
    /// oldest first.
    pub local_buffer: Seq<Seq<u8>>,
}

impl ReaderView {
    /// What holds of every reader: it never takes bytes beyond the frame that it
    /// is reading.
    pub open spec fn wf(self) -> bool {
        missing(self.partial) >= 0
    }

    /// Whether a packet can be handed out, and which bytes it is made of.
    pub open spec fn ready(self) -> Option<Seq<u8>> {
        if self.local_buffer.len() > 0 {
            Some(self.local_buffer[0])
        } else if self.connected && missing(self.partial) == 0 {
            Some(self.partial.skip(LENGTH_LEN as int))
        } else {
            None
        }
    }

    /// Whether the counter of the reader has room for the packet that is ready, where it
    /// is one of the stream.
    pub open spec fn can_read(self) -> bool {
        self.local_buffer.len() == 0 && self.ready() is Some ==> self.sequence_number < i64::MAX
    }

    /// A reader once it knows what came of receiving.
    pub open spec fn after_received(self, outcome: Result<Seq<u8>, IoErrorKind>) -> ReaderView {
        match outcome {
            Ok(b) => ReaderView { partial: self.partial + b, ..self },
            Err(_) => self,
        }
    }

    /// A reader once it has handed out the packet that is ready, or turned it
    /// down. A packet of the stream counts only where it is not turned down; one
    /// that came with a reconnect has been counted already.
    pub open spec fn after_read(self) -> ReaderView {
        let serialized = self.ready()->Some_0;
        let cipher = cipher_after(serialized, self.cipher);
        if self.local_buffer.len() > 0 {
            ReaderView { cipher, local_buffer: self.local_buffer.skip(1), ..self }
        } else {
            ReaderView {
                cipher,
                partial: Seq::empty(),
                sequence_number: if unpacked(serialized, self.cipher) is Ok {
                    self.sequence_number + 1
                } else {
                    self.sequence_number
                },
                ..self
            }
        }
    }

    /// A reader once it goes on with a new socket and what the peer sent again.
    pub open spec fn revived(self, catchup: Seq<Seq<u8>>) -> ReaderView {
        ReaderView {
            connected: true,
            partial: Seq::empty(),
            local_buffer: self.local_buffer + catchup,
            sequence_number: self.sequence_number + catchup.len(),
            ..self
        }
    }
}

/// The reading end of a stream.
pub struct BackedReader {
    crypto: CryptoHandler,
    connected: bool,
    sequence_number: i64,
    partial: Vec<u8>,
    local_buffer: VecDeque<Vec<u8>>,
}

impl View for BackedReader {
    type V = ReaderView;

    closed spec fn view(&self) -> ReaderView {
        ReaderView {
            cipher: self.crypto@,
            connected: self.connected,
            sequence_number: self.sequence_number as int,
            partial: self.partial@,
            local_buffer: byte_views(self.local_buffer@),
        }
    }
}

impl BackedReader {
    /// A reader that is connected and has read nothing.
    pub fn new(crypto: CryptoHandler) -> (r: BackedReader)
        ensures
            r@.wf(),
            r@ == (ReaderView {
                cipher: crypto@,
                connected: true,
                sequence_number: 0,
                partial: Seq::empty(),
                local_buffer: Seq::empty(),
            }),
    {
        let r = BackedReader {
            crypto,
            connected: true,
            sequence_number: 0,
            partial: Vec::new(),
            local_buffer: VecDeque::new(),
        };
        assert(r@.local_buffer =~= Seq::empty());
        r
    }

    pub fn sequence_number(&self) -> (r: i64)
        ensures
            r == self@.sequence_number,
    {
        self.sequence_number
    }

    /// Notes that the socket is gone.
    pub fn invalidate_socket(&mut self)
        ensures
            final(self)@ == (ReaderView { connected: false, ..old(self)@ }),
    {
        self.connected = false;
    }

    fn unpack(&mut self, serialized: &[u8]) -> (r: Result<Packet, ReadError>)
        ensures
            final(self)@ == (ReaderView {
                cipher: cipher_after(serialized@, old(self)@.cipher),
                ..old(self)@
            }),
            match r {
                Ok(p) => unpacked(serialized@, old(self)@.cipher) == Ok::<PacketView, PacketError>(
                    p@,
                ),
                Err(e) => unpacked(serialized@, old(self)@.cipher) matches Err(why) && e
                    == ReadError::Packet(why),
            },
    {
        match Packet::from_serialized(serialized) {
            Ok(p) => {
                let mut p = p;
                match p.decrypt(&mut self.crypto) {
                    Ok(_) => Ok(p),
                    Err(e) => Err(ReadError::Packet(e)),
                }
            },
            Err(e) => Err(ReadError::Packet(e)),
        }
    }

    fn missing_bytes(&self) -> (r: usize)
        requires
            self@.wf(),
        ensures
            r == missing(self@.partial),
    {
        let have: usize = self.partial.len();
        if have < LENGTH_LEN {
            return LENGTH_LEN - have;
        }
        let body: u64 = byte_order::from_bytes(
            ByteOrder::Big,
            vstd::slice::slice_subrange(self.partial.as_slice(), 0, LENGTH_LEN),
        );
        assert(self.partial@.subrange(0, LENGTH_LEN as int) =~= self.partial@.take(
            LENGTH_LEN as int,
        ));
        proof {
            byte_order::lemma_int_bound(ByteOrder::Big, self.partial@.take(LENGTH_LEN as int));
            byte_order::lemma_byte_ranges();
        }
        let done: u64 = (have - LENGTH_LEN) as u64;
        (body - done) as usize
    }

    /// Whether the counter of the reader has room for the packet that is ready. It
    /// overflows only after more packets than a machine can receive.
    pub fn can_read(&self) -> (r: bool)
        requires
            self@.wf(),
        ensures
            r == self@.can_read(),
    {
        self.local_buffer.len() > 0 || !self.connected || self.missing_bytes() > 0
            || self.sequence_number < i64::MAX
    }

    /// Hands out the next packet, or says how many bytes to receive for it; the
    /// outcome of that goes to `received`.
    pub fn read(&mut self) -> (r: Result<ReadStep, ReadError>)
        requires
            old(self)@.wf(),
            old(self)@.can_read(),
        ensures
            final(self)@.wf(),
            match old(self)@.ready() {
                Some(serialized) => {
                    &&& final(self)@ == old(self)@.after_read()
                    &&& match unpacked(serialized, old(self)@.cipher) {
                        Ok(p) => r matches Ok(ReadStep::Packet(got)) && got@ == p,
                        Err(e) => r matches Err(ReadError::Packet(why)) && why == e,
                    }
                },
                None => {
                    &&& final(self)@ == old(self)@
                    &&& if old(self)@.connected {
                        r matches Ok(ReadStep::Receive(n)) && 0 < n == missing(old(self)@.partial)
                    } else {
                        r matches Ok(ReadStep::Idle)
                    }
                },
            },
    {
        match self.local_buffer.pop_front() {
            Some(serialized) => {
                assert(self@.local_buffer =~= old(self)@.local_buffer.skip(1));
                return match self.unpack(serialized.as_slice()) {
                    Ok(p) => Ok(ReadStep::Packet(p)),
                    Err(e) => Err(e),
                };
            },
            None => {
                assert(self@.local_buffer =~= old(self)@.local_buffer);
            },
        }
        if !self.connected {
            return Ok(ReadStep::Idle);
        }
        let more: usize = self.missing_bytes();
        if more > 0 {
            return Ok(ReadStep::Receive(more));
        }
        let have: usize = self.partial.len();
        let serialized: Vec<u8> = vstd::slice::slice_to_vec(
            vstd::slice::slice_subrange(self.partial.as_slice(), LENGTH_LEN, have),
        );
        assert(serialized@ =~= self.partial@.skip(LENGTH_LEN as int));
        self.partial.clear();
        match self.unpack(serialized.as_slice()) {
            Ok(p) => {
                self.sequence_number = self.sequence_number + 1;
                Ok(ReadStep::Packet(p))
            },
            Err(e) => Err(e),
        }
    }

    /// Takes note of what came of receiving: the bytes, of which there are none
    /// where the peer has closed the connection, or a failure. Says whether to go
    /// on reading.
    pub fn received(&mut self, outcome: Result<Vec<u8>, IoErrorKind>) -> (r: Result<
        bool,
        ReadError,
    >)
        requires
            old(self)@.wf(),
            outcome matches Ok(b) ==> b@.len() <= missing(old(self)@.partial),
        ensures
            final(self)@.wf(),
            final(self)@ == old(self)@.after_received(outcome_view(outcome)),
            r == reply(outcome_view(outcome)),
            match outcome {
                Ok(b) => {
                    &&& final(self)@ == (ReaderView {
                        partial: old(self)@.partial + b@,
                        ..old(self)@
                    })
                    &&& r == (if b@.len() == 0 {
                        Err::<bool, ReadError>(ReadError::ConnectionClosed)
                    } else {
                        Ok::<bool, ReadError>(true)
                    })
                },
                Err(kind) => {
                    &&& final(self)@ == old(self)@
                    &&& r == (match kind {
                        IoErrorKind::WouldBlock => Ok::<bool, ReadError>(false),
                        IoErrorKind::TimedOut => Ok::<bool, ReadError>(false),
                        IoErrorKind::Interrupted => Ok::<bool, ReadError>(true),
                        _ => Err::<bool, ReadError>(ReadError::Io(kind)),
                    })
                },
            },
    {
        match outcome {
            Ok(b) => {
                let ghost before = self.partial@;
                wire::put_slice(&mut self.partial, b.as_slice());
                proof {
                    if before.len() >= LENGTH_LEN {
                        assert(self.partial@.take(LENGTH_LEN as int) =~= before.take(
                            LENGTH_LEN as int,
                        ));
                    }
                    assert(before + Seq::empty() =~= before);
                }
                if b.len() == 0 {
                    Err(ReadError::ConnectionClosed)
                } else {
                    Ok(true)
                }
            },
            Err(kind) => {
                if io::is_transient(kind) {
                    Ok(false)
                } else if kind == IoErrorKind::Interrupted {
                    Ok(true)
                } else {
                    Err(ReadError::Io(kind))
                }
            },
        }
    }

    /// Goes on with a new socket, after the packets that the peer sent again.
    pub fn revive(&mut self, catchup: Vec<Vec<u8>>)
        requires
            old(self)@.sequence_number + catchup@.len() <= i64::MAX,
        ensures
            final(self)@.wf(),
            final(self)@ == old(self)@.revived(byte_views(catchup@)),
    {
        self.partial.clear();
        self.connected = true;
        let ghost entries = catchup@;
        let ghost before = self@;
        assert(before.local_buffer + byte_views(entries).take(0) =~= before.local_buffer);
        for entry in it: catchup
            invariant
                it.seq() == entries,
                self.sequence_number == before.sequence_number + it.index(),
                before.sequence_number + entries.len() <= i64::MAX,
                self@ == (ReaderView {
                    sequence_number: before.sequence_number + it.index(),
                    local_buffer: before.local_buffer + byte_views(entries).take(it.index() as int),
                    ..before
                }),
        {
            let ghost k = it.index() as int;
            assert(byte_views(entries).take(k + 1) =~= byte_views(entries).take(k).push(entry@));
            let ghost queue = self.local_buffer@;
            self.local_buffer.push_back(entry);
            assert(byte_views(queue.push(entry)) =~= byte_views(queue).push(entry@));
            self.sequence_number = self.sequence_number + 1;
            assert(self@.local_buffer =~= before.local_buffer + byte_views(entries).take(k + 1));
        }
        assert(byte_views(entries).take(entries.len() as int) =~= byte_views(entries));
    }
}

/// How long to wait before a socket that was not ready is tried again.
pub const RETRY_PAUSE_MS: u64 = 1;

/// How far the sending of a frame has got.
#[derive(Debug, Clone, Copy, PartialEq, Eq, Structural)]
pub struct SendProgress {
    /// The number of bytes that were sent.
    pub sent: usize,
    /// How long to wait before the rest is tried.
    pub pause_ms: u64,
}

/// What one attempt to send the bytes of a frame from `sent` on comes to: the
/// attempt may have taken some of them, may be worth repeating, or may have failed
/// for good.
pub fn write_all_retry(len: usize, sent: usize, outcome: Result<usize, IoErrorKind>) -> (r: Result<
    SendProgress,
    IoErrorKind,
>)
    requires
        sent <= len,
        outcome matches Ok(n) ==> n <= len - sent,
    ensures
        r == (match outcome {
            Ok(n) => if n == 0 {
                Err::<SendProgress, IoErrorKind>(IoErrorKind::WriteZero)
            } else {
                Ok(SendProgress { sent: (sent + n) as usize, pause_ms: 0 })
            },
            Err(kind) => if kind == IoErrorKind::WouldBlock || kind == IoErrorKind::TimedOut {
                Ok(SendProgress { sent, pause_ms: RETRY_PAUSE_MS })
            } else if kind == IoErrorKind::Interrupted {
                Ok(SendProgress { sent, pause_ms: 0 })
            } else {
                Err(kind)
            },
        }),
{
    match outcome {
        Ok(n) => {
            if n == 0 {
                Err(IoErrorKind::WriteZero)
            } else {
                Ok(SendProgress { sent: sent + n, pause_ms: 0 })
            }
        },
        Err(kind) => {
            if io::is_transient(kind) {
                Ok(SendProgress { sent, pause_ms: RETRY_PAUSE_MS })
            } else if kind == IoErrorKind::Interrupted {
                Ok(SendProgress { sent, pause_ms: 0 })
            } else {
                Err(kind)
            }
        },
    }
}

/// On the stream, a packet goes behind its length: four bytes, the highest first.
pub proof fn a_length_goes_before_a_packet(serialized: Seq<u8>)
    ensures
        framed(serialized).len() == 4 + serialized.len(),
        framed(serialized).skip(4) == serialized,
        serialized.len() < 0x1_0000_0000 ==> {
            let f = framed(serialized);
            f[0] * 0x100_0000 + f[1] * 0x1_0000 + f[2] * 0x100 + f[3] == serialized.len()
        },
{
    let f = framed(serialized);
    byte_order::lemma_le_len(serialized.len(), 4);
    assert(f.skip(4) =~= serialized);
    if serialized.len() < 0x1_0000_0000 {
        byte_order::lemma_byte_ranges();
        byte_order::int_round_trip(ByteOrder::Big, serialized.len(), 4);
        byte_order::value_of_four_bytes(byte_order::int_bytes(ByteOrder::Big, serialized.len(), 4));
    }
}

/// A reader first wants the four bytes of the length, then as many as they say.
pub proof fn a_reader_wants_what_the_length_says(partial: Seq<u8>)
    ensures
        partial.len() < 4 ==> missing(partial) == 4 - partial.len(),
        partial.len() >= 4 ==> missing(partial) == 4 + (partial[0] * 0x100_0000 + partial[1]
            * 0x1_0000 + partial[2] * 0x100 + partial[3]) - partial.len(),
{
    if partial.len() >= 4 {
        byte_order::value_of_four_bytes(partial.take(4));
    }
}

/// What a reader makes of the bytes of a packet: two bytes at least, the first not zero,
/// and behind them what decrypts as the next message. The second byte is the type.
pub proof fn packets_are_unpacked(s: Seq<u8>, c: CipherState)
    ensures
        s.len() < 2 ==> unpacked(s, c) == Err::<PacketView, PacketError>(PacketError::TooShort),
        s.len() >= 2 && s[0] == 0 ==> unpacked(s, c) == Err::<PacketView, PacketError>(
            PacketError::NotEncrypted,
        ),
        s.len() >= 2 && s[0] != 0 ==> match c.open_next(s.skip(2)) {
            Some(payload) => unpacked(s, c) == Ok::<PacketView, PacketError>(
                PacketView { encrypted: false, header: s[1], payload },
            ),
            None => unpacked(s, c) == Err::<PacketView, PacketError>(
                PacketError::Crypto(crate::crypto::CryptoError::Forged),
            ),
        },
        cipher_after(s, c) == (if s.len() >= 2 && s[0] != 0 {
            c.after(1)
        } else {
            c
        }),
{
}

/// What came with a reconnect goes first, then what the socket has brought in full;
/// without a socket there is no more.
pub proof fn packets_are_ready_in_turn(r: ReaderView)
    ensures
        r.local_buffer.len() > 0 ==> r.ready() == Some(r.local_buffer[0]),
        r.local_buffer.len() == 0 && r.connected && r.partial.len() >= 4 && r.partial.len() == 4
            + r.partial[0] * 0x100_0000 + r.partial[1] * 0x1_0000 + r.partial[2] * 0x100
            + r.partial[3] ==> r.ready() == Some(r.partial.skip(4)),
        r.local_buffer.len() == 0 && !r.connected ==> r.ready() is None,
        r.local_buffer.len() == 0 && (r.partial.len() < 4 || r.partial.len() != 4 + r.partial[0]
            * 0x100_0000 + r.partial[1] * 0x1_0000 + r.partial[2] * 0x100 + r.partial[3])
            ==> r.ready() is None,
{
    a_reader_wants_what_the_length_says(r.partial);
}

/// Handing out a packet that came with a reconnect takes it from the front of those, and
/// counts nothing. Handing out one of the stream leaves nothing of its frame, and counts
/// it; one that is turned down does not count. Nothing else changes but the cipher.
pub proof fn reading_takes_one_packet(r: ReaderView)
    requires
        r.ready() is Some,
    ensures
        ({
            let after = r.after_read();
            &&& after.connected == r.connected
            &&& after.cipher == cipher_after(r.ready()->Some_0, r.cipher)
            &&& r.local_buffer.len() > 0 ==> {
                &&& after.local_buffer == r.local_buffer.skip(1)
                &&& after.sequence_number == r.sequence_number
                &&& after.partial == r.partial
            }
            &&& r.local_buffer.len() == 0 ==> {
                &&& after.local_buffer == r.local_buffer
                &&& after.partial.len() == 0
                &&& after.sequence_number == (if unpacked(r.ready()->Some_0, r.cipher) is Ok {
                    r.sequence_number + 1
                } else {
                    r.sequence_number
                })
            }
        }),
{
}

/// Of what is kept, the oldest packets go, and only as many as it takes to get to 64 MiB.
pub proof fn the_oldest_packets_go(packets: Seq<PacketView>)
    ensures
        trimmed(packets).len() <= packets.len(),
        trimmed(packets) == packets.take(trimmed(packets).len() as int),
        total_length(trimmed(packets)) <= 67_108_864,
        total_length(packets) <= 67_108_864 ==> trimmed(packets) == packets,
        trimmed(packets).len() < packets.len() ==> total_length(
            packets.take(trimmed(packets).len() as int + 1),
        ) > 67_108_864,
{
    trimming_keeps_the_newest(packets);
}

/// Packets are as long as two bytes and the payload each.
pub proof fn lengths_add_up(packets: Seq<PacketView>, p: PacketView)
    ensures
        total_length(Seq::empty()) == 0,
        total_length(packets.push(p)) == total_length(packets) + 2 + p.payload.len(),
{
    assert(packets.push(p).drop_last() =~= packets);
}

/// A writer skips a packet only where it has no socket and the packet, with its two bytes of
/// header, would take what it has buffered beyond the limit. What it takes counts with what
/// the cipher adds.
pub proof fn what_fits_is_buffered(w: WriterView, p: PacketView)
    ensures
        w.full_for(p) <==> !w.connected && w.disconnected_bytes + 2 + p.payload.len()
            > 67_108_864,
        w.connected ==> w.after_write(p).disconnected_bytes == w.disconnected_bytes,
        !w.connected ==> w.after_write(p).disconnected_bytes == w.disconnected_bytes + 2
            + w.cipher.seal_next(p.payload).len(),
        w.after_write(p).taken == w.taken.push(p),
        w.after_write(p).connected == w.connected,
        w.takes(p) <==> !p.encrypted && p.payload.len() + 16 <= isize::MAX,
{
}

/// Bytes that come are added to what has come, and the reading goes on; that none come means
/// that the peer has closed the connection. Reading stops for now where nothing is there yet,
/// goes on where it was interrupted, and fails with any other error. No error takes bytes.
pub proof fn what_came_of_receiving(r: ReaderView, b: Seq<u8>, kind: IoErrorKind)
    ensures
        r.after_received(Ok(b)) == (ReaderView { partial: r.partial + b, ..r }),
        b.len() > 0 ==> reply(Ok(b)) == Ok::<bool, ReadError>(true),
        b.len() == 0 ==> reply(Ok(b)) == Err::<bool, ReadError>(ReadError::ConnectionClosed),
        r.after_received(Err(kind)) == r,
        reply(Err(IoErrorKind::WouldBlock)) == Ok::<bool, ReadError>(false),
        reply(Err(IoErrorKind::TimedOut)) == Ok::<bool, ReadError>(false),
        reply(Err(IoErrorKind::Interrupted)) == Ok::<bool, ReadError>(true),
        kind != IoErrorKind::WouldBlock && kind != IoErrorKind::TimedOut && kind
            != IoErrorKind::Interrupted ==> reply(Err(kind)) == Err::<bool, ReadError>(
            ReadError::Io(kind),
        ),
{
}

} // verus!

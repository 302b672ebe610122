//! What the two ends of a stream do together: every packet that a writer takes
//! reaches the reader once and in order, across reconnects.

use vstd::prelude::*;

use crate::backed;
use crate::backed::{ReadError, ReaderView, RecoverError, WriterView};
use crate::byte_order;
use crate::byte_order::ByteOrder;
use crate::io::IoErrorKind;
use crate::packet;
use crate::packet::{PacketError, PacketView};

verus! {

/// The number of packets that a reader has handed out.
pub open spec fn handed_out(r: ReaderView) -> int {
    r.sequence_number - r.local_buffer.len()
}

/// Whether a reader has handed out exactly the first packets that the writer took,
/// and holds the next ones.
pub open spec fn in_step(w: WriterView, r: ReaderView) -> bool {
    let start = handed_out(r);
    &&& 0 <= start
    &&& r.sequence_number <= w.taken.len()
    &&& r.cipher == w.origin.after(start as nat)
    &&& forall|i: int|
        0 <= i < r.local_buffer.len() ==> #[trigger] r.local_buffer[i] == w.sealed(
            start + i,
        ).serialized()
}

/// The packets that a reader still hands out after a reconnect, without receiving
/// anything.
pub open spec fn pending(r: ReaderView) -> Seq<PacketView>
    decreases r.local_buffer.len(),
{
    if r.local_buffer.len() == 0 {
        Seq::empty()
    } else {
        match backed::unpacked(r.local_buffer[0], r.cipher) {
            Ok(p) => seq![p] + pending(r.after_read()),
            Err(_) => Seq::empty(),
        }
    }
}

proof fn lemma_unpacks(w: WriterView, k: int)
    requires
        w.wf(),
        0 <= k < w.taken.len(),
    ensures
        backed::unpacked(w.sealed(k).serialized(), w.origin.after(k as nat)) == Ok::<
            PacketView,
            PacketError,
        >(w.taken[k]),
        backed::cipher_after(w.sealed(k).serialized(), w.origin.after(k as nat)) == w.origin.after(
            (k + 1) as nat,
        ),
{
    packet::serialization_round_trip(w.sealed(k));
    crate::crypto::counting_adds_up(w.origin, k as nat, 1);
    assert(w.sealed(k) == backed::sealed_packet(w.origin, w.taken, k));
}

/// A writer and a reader that start with the same cipher are in step.
pub proof fn new_streams_are_in_step(w: WriterView, r: ReaderView)
    requires
        w.taken.len() == 0,
        r.sequence_number == 0,
        r.local_buffer.len() == 0,
        w.origin == r.cipher,
    ensures
        in_step(w, r),
{
    crate::crypto::counting_none(w.origin);
}

/// Taking a packet, losing the socket and getting a new one leave the two ends in
/// step.
pub proof fn writing_stays_in_step(w: WriterView, r: ReaderView, p: PacketView, connected: bool)
    requires
        in_step(w, r),
    ensures
        in_step(w.after_write(p), r),
        in_step(WriterView { connected, ..w }, r),
        in_step(w, ReaderView { connected, ..r }),
{
    let after = w.after_write(p);
    assert forall|i: int| 0 <= i < r.local_buffer.len() implies #[trigger] r.local_buffer[i]
        == after.sealed(handed_out(r) + i).serialized() by {
        assert(after.taken[handed_out(r) + i] == w.taken[handed_out(r) + i]);
    }
    let other = WriterView { connected, ..w };
    assert forall|i: int| 0 <= i < r.local_buffer.len() implies #[trigger] r.local_buffer[i]
        == other.sealed(handed_out(r) + i).serialized() by {}
}

/// Where packets are left from a reconnect, a read hands out the next packet that
/// the writer took, and the two ends stay in step.
pub proof fn buffered_packets_come_in_order(w: WriterView, r: ReaderView)
    requires
        w.wf(),
        in_step(w, r),
        r.local_buffer.len() > 0,
    ensures
        r.ready() matches Some(serialized) && backed::unpacked(serialized, r.cipher) == Ok::<
            PacketView,
            PacketError,
        >(w.taken[handed_out(r)]),
        handed_out(r.after_read()) == handed_out(r) + 1,
        in_step(w, r.after_read()),
{
    let start = handed_out(r);
    assert(r.local_buffer[0] == w.sealed(start + 0).serialized());
    lemma_unpacks(w, start);
    let after = r.after_read();
    assert forall|i: int| 0 <= i < after.local_buffer.len() implies #[trigger] after.local_buffer[i]
        == w.sealed(start + 1 + i).serialized() by {
        assert(after.local_buffer[i] == r.local_buffer[i + 1]);
    }
}

/// Where a reader is in step and the frame of the next packet has come, a read
/// hands that packet out, and the two ends stay in step.
pub proof fn received_packets_come_in_order(w: WriterView, r: ReaderView)
    requires
        w.wf(),
        in_step(w, r),
        r.connected,
        r.local_buffer.len() == 0,
        r.sequence_number < w.taken.len(),
        w.sealed(r.sequence_number).length() < 0x1_0000_0000,
        r.partial == backed::framed(w.sealed(r.sequence_number).serialized()),
    ensures
        r.ready() matches Some(serialized) && backed::unpacked(serialized, r.cipher) == Ok::<
            PacketView,
            PacketError,
        >(w.taken[handed_out(r)]),
        handed_out(r.after_read()) == handed_out(r) + 1,
        in_step(w, r.after_read()),
{
    let k = r.sequence_number;
    let serialized = w.sealed(k).serialized();
    packet::serialization_round_trip(w.sealed(k));
    frames_end_where_they_should(serialized, r.partial.len() as int);
    assert(r.partial.take(r.partial.len() as int) =~= r.partial);
    assert(r.partial.skip(backed::LENGTH_LEN as int) =~= serialized) by {
        byte_order::lemma_byte_ranges();
        byte_order::int_round_trip(
            ByteOrder::Big,
            serialized.len(),
            backed::LENGTH_LEN as nat,
        );
    }
    lemma_unpacks(w, k);
}

/// Whatever part of a frame has come, a reader never asks for bytes beyond its end,
/// and asks for none just where all of it has come.
pub proof fn frames_end_where_they_should(serialized: Seq<u8>, have: int)
    requires
        serialized.len() < 0x1_0000_0000,
        0 <= have <= backed::framed(serialized).len(),
    ensures
        ({
            let frame = backed::framed(serialized);
            let more = backed::missing(frame.take(have));
            &&& 0 <= more <= frame.len() - have
            &&& more == 0 <==> have == frame.len()
        }),
{
    let frame = backed::framed(serialized);
    byte_order::lemma_byte_ranges();
    byte_order::int_round_trip(ByteOrder::Big, serialized.len(), backed::LENGTH_LEN as nat);
    if have >= backed::LENGTH_LEN {
        assert(frame.take(have).take(backed::LENGTH_LEN as int) =~= byte_order::int_bytes(
            ByteOrder::Big,
            serialized.len(),
            backed::LENGTH_LEN as nat,
        ));
    }
}

/// What a writer sends again after a reconnect is just what the reader has missed:
/// once the reader has it, the two ends are in step, and nothing that was taken is
/// missing.
pub proof fn reconnecting_loses_nothing(w: WriterView, r: ReaderView)
    requires
        w.wf(),
        in_step(w, r),
    ensures
        w.recovery(r.sequence_number) matches Ok(batch) ==> {
            let revived = r.revived(batch);
            &&& in_step(w, revived)
            &&& revived.sequence_number == w.taken.len()
            &&& pending(revived) == w.taken.skip(handed_out(r))
        },
        w.recovery(r.sequence_number) matches Err(e) ==> {
            ||| e == RecoverError::SocketAlive && w.connected
            ||| e == RecoverError::PeerTooFarBehind && w.taken.len() - r.sequence_number
                > w.backup.len()
        },
{
    match w.recovery(r.sequence_number) {
        Ok(batch) => {
            let revived = r.revived(batch);
            let start = handed_out(r);
            let n = w.taken.len() as int;
            assert forall|i: int|
                0 <= i < revived.local_buffer.len() implies #[trigger] revived.local_buffer[i]
                == w.sealed(start + i).serialized() by {
                if i < r.local_buffer.len() {
                    assert(revived.local_buffer[i] == r.local_buffer[i]);
                } else {
                    let j = i - r.local_buffer.len();
                    let missed = n - r.sequence_number;
                    assert(revived.local_buffer[i] == batch[j]);
                    assert(batch[j] == w.backup[missed - 1 - j].serialized());
                }
            }
            pending_packets_are_the_next(w, revived);
            assert(w.taken.subrange(start, n) =~= w.taken.skip(start));
        },
        Err(_) => {},
    }
}

/// What a reader that is in step still hands out is what comes next in the writer's
/// order.
pub proof fn pending_packets_are_the_next(w: WriterView, r: ReaderView)
    requires
        w.wf(),
        in_step(w, r),
    ensures
        pending(r) == w.taken.subrange(handed_out(r), r.sequence_number),
    decreases r.local_buffer.len(),
{
    if r.local_buffer.len() > 0 {
        buffered_packets_come_in_order(w, r);
        pending_packets_are_the_next(w, r.after_read());
    }
    assert(pending(r) =~= w.taken.subrange(handed_out(r), r.sequence_number));
}

/// What a disconnected writer takes is sent again too, after all that it would have
/// sent again before.
pub proof fn buffering_keeps_what_was_missed(w: WriterView, p: PacketView, last: int)
    requires
        w.wf(),
        !w.connected,
        w.recovery(last) is Ok,
    ensures
        w.after_write(p).recovery(last) == Ok::<Seq<Seq<u8>>, RecoverError>(
            w.recovery(last)->Ok_0.push(p.sealed(w.cipher).serialized()),
        ),
{
    let after = w.after_write(p);
    let batch = w.recovery(last)->Ok_0;
    let missed = w.taken.len() - last;
    assert(after.recovery(last)->Ok_0 =~= batch.push(p.sealed(w.cipher).serialized())) by {
        assert forall|i: int| 0 <= i < missed implies #[trigger] after.recovery(last)->Ok_0[i]
            == batch[i] by {
            assert(after.backup[missed - i] == w.backup[missed - 1 - i]);
        }
    }
}

proof fn lemma_total_prefix(packets: Seq<PacketView>, k: int)
    requires
        0 <= k <= packets.len(),
    ensures
        backed::total_length(packets.take(k)) <= backed::total_length(packets),
    decreases packets.len() - k,
{
    if k < packets.len() {
        lemma_total_prefix(packets, k + 1);
        assert(packets.take(k + 1).drop_last() =~= packets.take(k));
    } else {
        assert(packets.take(k) =~= packets);
    }
}

/// A peer can be sent again what it has missed as long as that is no longer than the
/// limit of what is kept.
pub proof fn recent_packets_are_kept(w: WriterView, last: int)
    requires
        w.wf(),
        !w.connected,
        0 <= last <= w.taken.len(),
        backed::total_length(
            backed::newest(w.origin, w.taken, (w.taken.len() - last) as nat),
        ) <= 67_108_864,
    ensures
        w.recovery(last) is Ok,
{
    let missed = w.taken.len() - last;
    if missed > w.backup.len() {
        let all = backed::newest(w.origin, w.taken, missed as nat);
        let k = w.backup.len() + 1;
        lemma_total_prefix(all, k as int);
        assert(all.take(k as int) =~= backed::newest(w.origin, w.taken, k));
    }
}

/// What every writer keeps is the newest packets that it took, encrypted, the newest
/// first, and it knows how long they are together.
pub proof fn the_backup_holds_the_newest(w: WriterView)
    requires
        w.wf(),
    ensures
        w.backup_size == backed::total_length(w.backup),
        w.backup.len() <= w.sequence_number,
        w.sequence_number == w.taken.len(),
        forall|i: int|
            0 <= i < w.backup.len() ==> (#[trigger] w.backup[i]).encrypted && w.backup[i]
                == w.sealed(w.sequence_number - 1 - i),
{
}

/// A writer with a socket drops only the oldest packets, and keeps no more than the
/// limit; one without a socket drops none.
pub proof fn writing_drops_only_the_oldest(w: WriterView, p: PacketView)
    ensures
        ({
            let after = w.after_write(p);
            let all = seq![p.sealed(w.cipher)] + w.backup;
            &&& after.backup_size == backed::total_length(after.backup)
            &&& after.backup.len() <= all.len()
            &&& after.backup == all.take(after.backup.len() as int)
            &&& w.connected ==> after.backup_size <= 67_108_864
            &&& !w.connected ==> after.backup == all
        }),
{
    let all = seq![p.sealed(w.cipher)] + w.backup;
    backed::trimming_keeps_the_newest(all);
    assert(all.take(all.len() as int) =~= all);
}

/// What is sent again to a peer that has received `a` packets is each packet that was
/// taken after those, in the order in which they were taken, encrypted and serialized;
/// whether it was ever sent before does not matter. A peer that has received more gets
/// the end of the same.
pub proof fn what_was_missed_is_sent_again(w: WriterView, a: int, b: int)
    requires
        w.wf(),
        0 <= a <= b <= w.sequence_number,
        w.recovery(a) is Ok,
    ensures
        ({
            let batch = w.recovery(a)->Ok_0;
            &&& batch.len() == w.sequence_number - a
            &&& forall|i: int|
                0 <= i < batch.len() ==> #[trigger] batch[i] == w.sealed(a + i).serialized()
                    && batch[i][0] == 1
            &&& w.recovery(b) == Ok::<Seq<Seq<u8>>, RecoverError>(batch.skip(b - a))
        }),
{
    let batch = w.recovery(a)->Ok_0;
    let missed = w.sequence_number - a;
    assert forall|i: int| 0 <= i < batch.len() implies #[trigger] batch[i] == w.sealed(
        a + i,
    ).serialized() && batch[i][0] == 1 by {
        assert(batch[i] == w.backup[missed - 1 - i].serialized());
    }
    let later = w.recovery(b)->Ok_0;
    assert(later =~= batch.skip(b - a)) by {
        assert forall|i: int| 0 <= i < later.len() implies later[i] == batch[b - a + i] by {
            assert(later[i] == w.backup[w.sequence_number - b - 1 - i].serialized());
        }
    }
}

/// A reader after `count` reads that each handed out or turned down a packet.
pub open spec fn after_reads(r: ReaderView, count: nat) -> ReaderView
    decreases count,
{
    if count == 0 {
        r
    } else {
        after_reads(r, (count - 1) as nat).after_read()
    }
}

/// After a reconnect, a reader hands out the packets that the peer sent again, one with
/// each read and in their order. It takes nothing from the socket for them, and what it
/// had of a frame before is gone. They are counted from the start.
pub proof fn catchup_is_read_in_order(
    r: ReaderView,
    catchup: Seq<Seq<u8>>,
    packets: Seq<PacketView>,
    k: nat,
)
    requires
        r.local_buffer.len() == 0,
        packets.len() == catchup.len(),
        forall|i: int|
            0 <= i < catchup.len() ==> backed::unpacked(
                #[trigger] catchup[i],
                r.cipher.after(i as nat),
            ) == Ok::<PacketView, PacketError>(packets[i]),
        k <= catchup.len(),
    ensures
        ({
            let now = after_reads(r.revived(catchup), k);
            &&& now == (ReaderView {
                cipher: r.cipher.after(k),
                connected: true,
                sequence_number: r.sequence_number + catchup.len(),
                partial: Seq::empty(),
                local_buffer: catchup.skip(k as int),
            })
            &&& now.wf()
            &&& k < catchup.len() ==> {
                &&& now.can_read()
                &&& now.ready() == Some(catchup[k as int])
                &&& backed::unpacked(catchup[k as int], now.cipher) == Ok::<
                    PacketView,
                    PacketError,
                >(packets[k as int])
            }
        }),
    decreases k,
{
    if k == 0 {
        crate::crypto::counting_none(r.cipher);
        assert(r.local_buffer + catchup =~= catchup.skip(0));
    } else {
        let j = (k - 1) as nat;
        catchup_is_read_in_order(r, catchup, packets, j);
        crate::crypto::counting_adds_up(r.cipher, j, 1);
        assert(catchup.skip(j as int).skip(1) =~= catchup.skip(k as int));
    }
    if k < catchup.len() {
        assert(catchup.skip(k as int)[0] == catchup[k as int]);
    }
}

/// What came of receiving several times.
pub type Outcomes = Seq<Result<Seq<u8>, IoErrorKind>>;

/// The bytes that came, one after the other.
pub open spec fn bytes_in(outcomes: Outcomes) -> Seq<u8>
    decreases outcomes.len(),
{
    if outcomes.len() == 0 {
        Seq::empty()
    } else {
        bytes_in(outcomes.drop_last()) + (match outcomes.last() {
            Ok(b) => b,
            Err(_) => Seq::empty(),
        })
    }
}

/// A reader once it knows what came of receiving several times.
pub open spec fn after_outcomes(r: ReaderView, outcomes: Outcomes) -> ReaderView
    decreases outcomes.len(),
{
    if outcomes.len() == 0 {
        r
    } else {
        after_outcomes(r, outcomes.drop_last()).after_received(outcomes.last())
    }
}

/// Whether a reader comes by these outcomes in turn, without a failure for good: it asks
/// for bytes each time, and gets some of those that it asked for, or is not served yet.
pub open spec fn served(r: ReaderView, outcomes: Outcomes) -> bool
    decreases outcomes.len(),
{
    outcomes.len() > 0 ==> {
        let before = after_outcomes(r, outcomes.drop_last());
        &&& served(r, outcomes.drop_last())
        &&& before.ready() is None
        &&& backed::reply(outcomes.last()) is Ok
        &&& outcomes.last() matches Ok(b) ==> b.len() <= backed::missing(before.partial)
    }
}

/// A frame arrives whole, whatever the chunks in which it comes and the pauses between
/// them, and whatever follows it in the stream. Until its last byte is there, nothing is
/// handed out or counted and no byte is lost: where the socket is not ready, the reading
/// stops for now. With its last byte the packet is ready; the read that hands it out
/// counts it. No byte behind the frame is ever asked for.
pub proof fn a_frame_arrives_in_any_chunks(
    r: ReaderView,
    serialized: Seq<u8>,
    rest: Seq<u8>,
    outcomes: Outcomes,
)
    requires
        r.connected,
        r.local_buffer.len() == 0,
        r.partial.len() == 0,
        serialized.len() < 0x1_0000_0000,
        served(r, outcomes),
        bytes_in(outcomes).is_prefix_of(backed::framed(serialized) + rest),
    ensures
        ({
            let frame = backed::framed(serialized);
            let got = bytes_in(outcomes);
            let now = after_outcomes(r, outcomes);
            &&& got.len() <= frame.len()
            &&& got == frame.take(got.len() as int)
            &&& now == (ReaderView { partial: got, ..r })
            &&& now.wf()
            &&& got.len() < frame.len() ==> {
                &&& now.ready() is None
                &&& 0 < backed::missing(now.partial) <= frame.len() - got.len()
            }
            &&& got.len() == frame.len() ==> {
                &&& now.ready() == Some(serialized)
                &&& backed::unpacked(serialized, r.cipher) is Ok ==> now.after_read() == (
                ReaderView {
                    cipher: r.cipher.after(1),
                    sequence_number: r.sequence_number + 1,
                    partial: Seq::empty(),
                    ..r
                })
            }
            &&& forall|i: int|
                0 <= i < outcomes.len() ==> backed::reply(#[trigger] outcomes[i]) == Ok::<
                    bool,
                    ReadError,
                >(
                    outcomes[i] != Err::<Seq<u8>, IoErrorKind>(IoErrorKind::WouldBlock)
                        && outcomes[i] != Err::<Seq<u8>, IoErrorKind>(IoErrorKind::TimedOut),
                )
        }),
    decreases outcomes.len(),
{
    let frame = backed::framed(serialized);
    let stream = frame + rest;
    let got = bytes_in(outcomes);
    if outcomes.len() > 0 {
        let earlier = outcomes.drop_last();
        let had = bytes_in(earlier);
        assert(had.is_prefix_of(stream)) by {
            assert(had =~= got.take(had.len() as int));
            assert(had =~= stream.take(had.len() as int));
        }
        a_frame_arrives_in_any_chunks(r, serialized, rest, earlier);
        assert forall|i: int| 0 <= i < outcomes.len() implies backed::reply(#[trigger] outcomes[i])
            == Ok::<bool, ReadError>(
            outcomes[i] != Err::<Seq<u8>, IoErrorKind>(IoErrorKind::WouldBlock) && outcomes[i]
                != Err::<Seq<u8>, IoErrorKind>(IoErrorKind::TimedOut),
        ) by {
            if i < earlier.len() {
                assert(outcomes[i] == earlier[i]);
            }
        }
        assert(had + Seq::<u8>::empty() =~= had);
    } else {
        assert(r.partial =~= got);
    }
    assert(got =~= frame.take(got.len() as int)) by {
        assert(got =~= stream.take(got.len() as int));
        assert(stream.take(got.len() as int) =~= frame.take(got.len() as int));
    }
    frames_end_where_they_should(serialized, got.len() as int);
    byte_order::lemma_byte_ranges();
    byte_order::int_round_trip(ByteOrder::Big, serialized.len(), backed::LENGTH_LEN as nat);
    if got.len() == frame.len() {
        assert(got.skip(backed::LENGTH_LEN as int) =~= serialized);
    }
}

} // verus!

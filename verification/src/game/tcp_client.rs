//! The zone's side of one connection's socket: the packets waiting to go
//! out, the packets that came in, the bytes a partial write left behind,
//! and a count of consecutive failed writes.
//!
//! The socket itself is the caller's. The caller writes the bytes it is
//! given, reads, and reports what happened.

use crate::codec::{packet_read, packet_written, parse, serialize};
use crate::proto::{Packet, PacketView};
use crate::wire::lemma_bytes_deep_view;
use vstd::prelude::*;

verus! {

broadcast use lemma_bytes_deep_view;

/// A transport is given up once more than this many writes in a row failed.
pub const ERROR_LIMIT: u32 = 100;

/// What one read of the socket gave.
#[derive(Debug, PartialEq, Eq)]
pub enum ReadOutcome {
    /// The peer closed the connection.
    Closed,
    /// The frames that were read, in order, each the bytes of one message.
    Frames(Vec<Vec<u8>>),
    /// The read failed.
    Failed,
}

/// The mathematical value of a [`ReadOutcome`].
pub enum ReadOutcomeView {
    Closed,
    Frames(Seq<Seq<u8>>),
    Failed,
}

impl View for ReadOutcome {
    type V = ReadOutcomeView;

    open spec fn view(&self) -> ReadOutcomeView {
        match *self {
            ReadOutcome::Closed => ReadOutcomeView::Closed,
            ReadOutcome::Frames(frames) => ReadOutcomeView::Frames(frames.deep_view()),
            ReadOutcome::Failed => ReadOutcomeView::Failed,
        }
    }
}

impl DeepView for ReadOutcome {
    type V = ReadOutcomeView;

    open spec fn deep_view(&self) -> ReadOutcomeView {
        self@
    }
}

/// What one vectored write of a batch gave.
#[derive(Clone, Copy, Debug, PartialEq, Eq, Structural)]
pub enum WriteOutcome {
    /// The socket took this many bytes of the batch.
    Written(usize),
    /// The write reported that it could write nothing.
    WriteZero,
    /// Any other failure.
    Failed,
}

/// The packets that `frames` hold, in the order they came. A frame that
/// holds no packet is left out.
pub open spec fn decoded_frames(frames: Seq<Seq<u8>>) -> Seq<PacketView> {
    frames.filter_map(|frame: Seq<u8>| packet_read(frame))
}

/// How many frames of one read held no packet.
pub open spec fn skipped_frames(outcome: ReadOutcomeView) -> int {
    match outcome {
        ReadOutcomeView::Frames(frames) => frames.len() - decoded_frames(frames).len(),
        _ => 0,
    }
}

/// How many packets of `queue` do not serialise.
pub open spec fn unwritable(queue: Seq<PacketView>) -> int {
    queue.len() - writable(queue).len()
}

/// What serialising each packet of `queue` gives, in queue order.
pub open spec fn encoded_of(queue: Seq<PacketView>) -> Seq<Option<Seq<u8>>> {
    queue.map_values(|packet: PacketView| packet_written(packet))
}

/// The packets of `queue` that serialise, in queue order.
pub open spec fn writable(queue: Seq<PacketView>) -> Seq<PacketView> {
    queue.filter(|packet: PacketView| packet_written(packet) is Some)
}

/// The buffers of one write: first the bytes an earlier write left behind,
/// if any, then each packet's bytes, in queue order, without the packets
/// that did not serialise.
pub open spec fn batch_of(unsent: Seq<u8>, encoded: Seq<Option<Seq<u8>>>) -> Seq<Seq<u8>> {
    let fresh = encoded.filter_map(|e: Option<Seq<u8>>| e);
    if unsent.len() > 0 {
        seq![unsent] + fresh
    } else {
        fresh
    }
}

/// The bytes of `batch` behind the first `accepted` ones.
pub open spec fn unaccepted(batch: Seq<Seq<u8>>, accepted: nat) -> Seq<u8> {
    let bytes = batch.flatten();
    if accepted >= bytes.len() {
        Seq::empty()
    } else {
        bytes.skip(accepted as int)
    }
}

/// The mathematical value of a [`TcpClient`].
pub struct TcpClientView {
    /// The packets that came in and were not yet handled, oldest first.
    pub recv_messages: Seq<PacketView>,
    /// The packets waiting to go out, oldest first.
    pub send_messages: Seq<PacketView>,
    /// Bytes that were handed to a write which the socket did not take.
    pub unsent: Seq<u8>,
    /// How many writes in a row failed.
    pub error_counter: u32,
    /// Whether the peer closed the connection.
    pub disconnected: bool,
}

impl TcpClientView {
    /// A transport that has seen nothing yet.
    pub open spec fn fresh() -> TcpClientView {
        TcpClientView {
            recv_messages: Seq::empty(),
            send_messages: Seq::empty(),
            unsent: Seq::empty(),
            error_counter: 0,
            disconnected: false,
        }
    }

    /// With `packet` at the end of the outbound queue.
    pub open spec fn stacked(self, packet: PacketView) -> TcpClientView {
        TcpClientView { send_messages: self.send_messages.push(packet), ..self }
    }

    /// After one read. Frames that are packets join the inbound queue; a
    /// close is remembered; a failed read changes nothing.
    pub open spec fn received(self, outcome: ReadOutcomeView) -> TcpClientView {
        match outcome {
            ReadOutcomeView::Closed => TcpClientView { disconnected: true, ..self },
            ReadOutcomeView::Frames(frames) => TcpClientView {
                recv_messages: self.recv_messages + decoded_frames(frames),
                ..self
            },
            ReadOutcomeView::Failed => self,
        }
    }

    /// With an empty inbound queue.
    pub open spec fn drained(self) -> TcpClientView {
        TcpClientView { recv_messages: Seq::empty(), ..self }
    }

    /// The failure count after one more failed write. It stops at the
    /// largest count the counter can hold.
    pub open spec fn bumped(self) -> u32 {
        if self.error_counter < u32::MAX {
            (self.error_counter + 1) as u32
        } else {
            self.error_counter
        }
    }

    /// The buffers of the next write: first the bytes an earlier write
    /// left behind, if any, then the bytes of each queued packet, in queue
    /// order, without the packets that do not serialise.
    pub open spec fn batch(self) -> Seq<Seq<u8>> {
        batch_of(self.unsent, encoded_of(self.send_messages))
    }

    /// After one flush, where `outcome` is what writing the batch gave.
    ///
    /// With nothing to write, no write is made, `outcome` says nothing and
    /// nothing changes. A write that the socket took empties the queue,
    /// the packets that do not serialise with it, keeps the bytes that the
    /// socket did not take, and resets the failure count. A write of zero
    /// bytes changes nothing. Any other failure counts, and leaves the
    /// queue whole for the next flush.
    pub open spec fn sent(self, outcome: WriteOutcome) -> TcpClientView {
        if self.batch().len() == 0 {
            self
        } else {
            match outcome {
                WriteOutcome::Written(n) => TcpClientView {
                    send_messages: Seq::empty(),
                    unsent: unaccepted(self.batch(), n as nat),
                    error_counter: 0,
                    ..self
                },
                WriteOutcome::WriteZero => self,
                WriteOutcome::Failed => TcpClientView { error_counter: self.bumped(), ..self },
            }
        }
    }

    /// Whether the transport is given up.
    pub open spec fn unhealthy(self) -> bool {
        self.error_counter > ERROR_LIMIT
    }
}

/// One connection's transport.
#[derive(Debug)]
pub struct TcpClient {
    recv_messages: Vec<Packet>,
    send_messages: Vec<Packet>,
    unsent: Vec<u8>,
    error_counter: u32,
    disconnected: bool,
}

impl View for TcpClient {
    type V = TcpClientView;

    closed spec fn view(&self) -> TcpClientView {
        TcpClientView {
            recv_messages: self.recv_messages.deep_view(),
            send_messages: self.send_messages.deep_view(),
            unsent: self.unsent@,
            error_counter: self.error_counter,
            disconnected: self.disconnected,
        }
    }
}

impl DeepView for TcpClient {
    type V = TcpClientView;

    open spec fn deep_view(&self) -> TcpClientView {
        self@
    }
}

/// A copy of `bytes`.
fn copy_bytes(bytes: &Vec<u8>) -> (copy: Vec<u8>)
    ensures
        copy@ == bytes@,
{
    let mut copy: Vec<u8> = Vec::new();
    let mut i: usize = 0;
    while i < bytes.len()
        invariant
            i <= bytes.len(),
            copy@ == bytes@.take(i as int),
        decreases bytes.len() - i,
    {
        copy.push(bytes[i]);
        i += 1;
    }
    copy
}

/// The bytes of `batch` behind the first `accepted` ones.
fn unaccepted_bytes(batch: &Vec<Vec<u8>>, accepted: usize) -> (rest: Vec<u8>)
    ensures
        rest@ == unaccepted(batch.deep_view(), accepted as nat),
{
    let mut rest: Vec<u8> = Vec::new();
    let mut to_skip: usize = accepted;
    let mut k: usize = 0;
    while k < batch.len()
        invariant
            k <= batch.len(),
            to_skip <= accepted,
            accepted - to_skip <= batch.deep_view().take(k as int).flatten().len(),
            to_skip > 0 ==> accepted - to_skip == batch.deep_view().take(k as int).flatten().len(),
            rest@ == batch.deep_view().take(k as int).flatten().skip(accepted - to_skip),
        decreases batch.len() - k,
    {
        let ghost seen = batch.deep_view().take(k as int).flatten();
        let ghost skipped = accepted - to_skip;
        let ghost before = rest@;
        let buf = &batch[k];
        let start: usize = if to_skip >= buf.len() {
            buf.len()
        } else {
            to_skip
        };
        to_skip = to_skip - start;
        let mut j: usize = start;
        while j < buf.len()
            invariant
                start <= j <= buf.len(),
                rest@ == before + buf@.subrange(start as int, j as int),
            decreases buf.len() - j,
        {
            rest.push(buf[j]);
            j += 1;
        }
        proof {
            let views = batch.deep_view();
            assert(views[k as int] =~= buf@);
            assert(views.take(k + 1) =~= views.take(k as int).push(buf@));
            views.take(k as int).lemma_flatten_push(buf@);
            assert(views.take(k + 1).flatten() == seen + buf@);
            assert(rest@ =~= (seen + buf@).skip(skipped + start));
        }
        k += 1;
    }
    proof {
        let views = batch.deep_view();
        assert(views.take(k as int) =~= views);
    }
    rest
}

impl TcpClient {
    /// A transport that has seen nothing yet.
    pub fn new() -> (tcp: TcpClient)
        ensures
            tcp@ == TcpClientView::fresh(),
    {
        let tcp = TcpClient {
            recv_messages: Vec::new(),
            send_messages: Vec::new(),
            unsent: Vec::new(),
            error_counter: 0,
            disconnected: false,
        };
        assert(tcp.recv_messages.deep_view() =~= Seq::empty());
        assert(tcp.send_messages.deep_view() =~= Seq::empty());
        tcp
    }

    /// Puts `packet` at the end of the outbound queue. The queue has no
    /// bound.
    pub fn stack_packet(&mut self, packet: Packet)
        ensures
            final(self)@ == old(self)@.stacked(packet@),
    {
        self.send_messages.push(packet);
        assert(self.send_messages.deep_view() =~= old(self).send_messages.deep_view().push(
            packet@,
        ));
    }

    /// What serialising each queued packet gives, in queue order, and how
    /// many of them do not serialise.
    fn encode_queue(&self) -> (result: (Vec<Option<Vec<u8>>>, usize))
        ensures
            result.0.deep_view() == encoded_of(self@.send_messages),
            result.1 == unwritable(self@.send_messages),
    {
        let ghost queue = self@.send_messages;
        let ghost fits = |packet: PacketView| packet_written(packet) is Some;
        let mut encoded: Vec<Option<Vec<u8>>> = Vec::new();
        let mut failed: usize = 0;
        let mut i: usize = 0;
        proof {
            reveal(Seq::filter);
            assert(queue.take(0).filter(fits) =~= Seq::empty());
        }
        while i < self.send_messages.len()
            invariant
                i <= self.send_messages.len(),
                queue == self@.send_messages,
                fits == |packet: PacketView| packet_written(packet) is Some,
                encoded.deep_view() == encoded_of(queue.take(i as int)),
                failed == i - queue.take(i as int).filter(fits).len(),
            decreases self.send_messages.len() - i,
        {
            let ghost before = encoded.deep_view();
            let bytes = serialize(&self.send_messages[i]);
            proof {
                assert(queue.take(i + 1) =~= queue.take(i as int).push(queue[i as int]));
                queue.take(i as int).lemma_filter_push(queue[i as int], fits);
                queue.take(i as int).lemma_filter_len(fits);
            }
            if bytes.is_none() {
                failed += 1;
            }
            encoded.push(bytes);
            proof {
                assert(encoded.deep_view() =~= before.push(bytes.deep_view()));
                assert(encoded.deep_view() =~= encoded_of(queue.take(i + 1)));
            }
            i += 1;
        }
        assert(queue.take(i as int) =~= queue);
        (encoded, failed)
    }

    /// The buffers of one write, given what serialising the queue gave.
    fn batch_from(&self, encoded: &Vec<Option<Vec<u8>>>) -> (batch: Vec<Vec<u8>>)
        ensures
            batch.deep_view() == batch_of(self@.unsent, encoded.deep_view()),
    {
        let mut batch: Vec<Vec<u8>> = Vec::new();
        if self.unsent.len() > 0 {
            batch.push(copy_bytes(&self.unsent));
        }
        let ghost head = batch.deep_view();
        let ghost pick = |e: Option<Seq<u8>>| e;
        assert(self@.unsent.len() > 0 ==> head.len() == 1 && head[0] =~= self@.unsent);
        assert(head =~= if self@.unsent.len() > 0 {
            seq![self@.unsent]
        } else {
            Seq::empty()
        });
        let mut i: usize = 0;
        while i < encoded.len()
            invariant
                i <= encoded.len(),
                pick == |e: Option<Seq<u8>>| e,
                batch.deep_view() == head + encoded.deep_view().take(i as int).filter_map(pick),
            decreases encoded.len() - i,
        {
            proof {
                encoded.deep_view().lemma_filter_map_take_succ(pick, i as int);
            }
            let ghost before = batch.deep_view();
            match &encoded[i] {
                Some(bytes) => {
                    batch.push(copy_bytes(bytes));
                    assert(encoded.deep_view()[i as int] =~= Some(bytes@));
                    assert(batch.deep_view() =~= before.push(bytes@));
                },
                None => {
                    assert(encoded.deep_view()[i as int] is None);
                },
            }
            i += 1;
        }
        assert(encoded.deep_view().take(i as int) =~= encoded.deep_view());
        batch
    }

    /// The buffers to hand to one vectored write. With no buffer there is
    /// nothing to write.
    pub fn send_batch(&self) -> (batch: Vec<Vec<u8>>)
        ensures
            batch.deep_view() == self@.batch(),
    {
        let (encoded, _) = self.encode_queue();
        self.batch_from(&encoded)
    }

    /// Settles one flush: `outcome` is what writing
    /// [`send_batch`](Self::send_batch) gave. Where that batch is empty no
    /// write was due and `outcome` is not looked at. Says how many queued
    /// packets do not serialise: they are in no batch, and leave the queue
    /// with the others once a write is taken.
    pub fn send(&mut self, outcome: WriteOutcome) -> (failed: usize)
        ensures
            final(self)@ == old(self)@.sent(outcome),
            failed == unwritable(old(self)@.send_messages),
    {
        let (encoded, failed) = self.encode_queue();
        let batch = self.batch_from(&encoded);
        if batch.len() == 0 {
            return failed;
        }
        match outcome {
            WriteOutcome::Written(accepted) => {
                self.unsent = unaccepted_bytes(&batch, accepted);
                self.error_counter = 0;
                self.send_messages.clear();
                assert(self.send_messages.deep_view() =~= Seq::empty());
            },
            WriteOutcome::WriteZero => {},
            WriteOutcome::Failed => {
                if self.error_counter < u32::MAX {
                    self.error_counter = self.error_counter + 1;
                }
            },
        }
        failed
    }

    /// Nothing is left to do for a transport that the zone gives up: the
    /// peer is not told, and the socket closes when the caller drops it.
    pub fn disconnect(&mut self)
        ensures
            final(self)@ == old(self)@,
    {
    }

    /// Whether the transport is given up: more than [`ERROR_LIMIT`] writes
    /// in a row failed.
    pub fn check_error(&self) -> (unhealthy: bool)
        ensures
            unhealthy == self@.unhealthy(),
    {
        self.error_counter > ERROR_LIMIT
    }

    /// Whether the peer closed the connection.
    pub fn is_disconnected(&self) -> (closed: bool)
        ensures
            closed == self@.disconnected,
    {
        self.disconnected
    }

    /// How many writes in a row failed.
    pub fn error_count(&self) -> (count: u32)
        ensures
            count == self@.error_counter,
    {
        self.error_counter
    }

    /// The packets that came in and were not yet handled, oldest first.
    pub fn get_recv_messages(&self) -> (packets: &Vec<Packet>)
        ensures
            packets.deep_view() == self@.recv_messages,
    {
        &self.recv_messages
    }

    /// The packets waiting to go out, oldest first.
    pub fn get_send_messages(&self) -> (packets: &Vec<Packet>)
        ensures
            packets.deep_view() == self@.send_messages,
    {
        &self.send_messages
    }

    /// Hands out the packets that came in, oldest first, and forgets them.
    pub fn into_recv_messages(&mut self) -> (packets: Vec<Packet>)
        ensures
            packets.deep_view() == old(self)@.recv_messages,
            final(self)@ == old(self)@.drained(),
    {
        let mut packets: Vec<Packet> = Vec::new();
        core::mem::swap(&mut packets, &mut self.recv_messages);
        assert(self.recv_messages.deep_view() =~= Seq::empty());
        packets
    }

    /// Takes in what one read gave and says how many frames held no
    /// packet. Such frames are skipped; the packets of the others join the
    /// inbound queue in the order they came.
    pub fn recv(&mut self, outcome: ReadOutcome) -> (skipped: usize)
        ensures
            final(self)@ == old(self)@.received(outcome@),
            skipped == skipped_frames(outcome@),
    {
        match outcome {
            ReadOutcome::Closed => {
                self.disconnected = true;
                0
            },
            ReadOutcome::Failed => 0,
            ReadOutcome::Frames(frames) => {
                let ghost all = frames.deep_view();
                let ghost read = |frame: Seq<u8>| packet_read(frame);
                let ghost before = self.recv_messages.deep_view();
                let mut skipped: usize = 0;
                let mut i: usize = 0;
                while i < frames.len()
                    invariant
                        i <= frames.len(),
                        skipped <= i,
                        all == frames.deep_view(),
                        read == |frame: Seq<u8>| packet_read(frame),
                        before == old(self)@.recv_messages,
                        self.send_messages == old(self).send_messages,
                        self.unsent == old(self).unsent,
                        self.error_counter == old(self).error_counter,
                        self.disconnected == old(self).disconnected,
                        self.recv_messages.deep_view() == before + all.take(i as int).filter_map(
                            read,
                        ),
                        skipped == i - all.take(i as int).filter_map(read).len(),
                    decreases frames.len() - i,
                {
                    proof {
                        all.lemma_filter_map_take_succ(read, i as int);
                        assert(all[i as int] == frames[i as int]@);
                    }
                    let ghost queue = self.recv_messages.deep_view();
                    match parse(frames[i].as_slice()) {
                        Some(packet) => {
                            self.recv_messages.push(packet);
                            assert(self.recv_messages.deep_view() =~= queue.push(packet@));
                        },
                        None => {
                            skipped += 1;
                        },
                    }
                    i += 1;
                }
                assert(all.take(all.len() as int) =~= all);
                skipped
            },
        }
    }
}

} // verus!

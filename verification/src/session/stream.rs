//! A stream: one duplex channel within a session.
//!
//! Incoming data arrives from the session as chunks; what a read cannot take of a
//! chunk waits in the stream's buffer and is handed out first, in order.
use vstd::prelude::*;
use std::sync::Arc;
use std::sync::atomic::{AtomicBool, Ordering};
use bytes::Bytes;
use tokio::sync::Mutex;
use tokio::sync::mpsc::{UnboundedReceiver, UnboundedSender};
use crate::util::error::AnyTlsError;
use crate::payload::{bytes_contents, bytes_as_slice, bytes_copy_from_slice};

verus! {

/// `tokio::sync::mpsc::UnboundedReceiver` is an outside type; Verus sees nothing
/// inside a value of it.
#[verifier::external_type_specification]
#[verifier::external_body]
#[verifier::reject_recursive_types(T)]
pub struct ExUnboundedReceiver<T>(UnboundedReceiver<T>);

/// `tokio::sync::mpsc::UnboundedSender` is an outside type; Verus sees nothing
/// inside a value of it.
#[verifier::external_type_specification]
#[verifier::external_body]
#[verifier::reject_recursive_types(T)]
pub struct ExUnboundedSender<T>(UnboundedSender<T>);

/// `tokio::sync::Mutex` is an outside type; Verus sees nothing inside a value of it.
#[verifier::external_type_specification]
#[verifier::external_body]
#[verifier::reject_recursive_types(T)]
pub struct ExMutex<T: ?Sized>(Mutex<T>);

/// Calls `tokio::sync::Mutex::new`; nothing is stated of the mutex.
#[verifier::external_body]
fn error_slot_new() -> Mutex<Option<AnyTlsError>> {
    Mutex::new(None)
}

/// Calls `tokio::sync::mpsc::UnboundedSender::send` with `message`: the flag is
/// `true` when the message was queued, `false` when the receiving side is gone, and
/// beside it comes a ghost copy of the message handed to the channel (its stream id
/// and bytes). Whether the receiver is still there is not known here, so nothing is
/// stated of the flag.
#[verifier::external_body]
fn channel_send(tx: &UnboundedSender<(u32, Bytes)>, message: (u32, Bytes)) -> (res: (
    bool,
    Ghost<(u32, Seq<u8>)>,
))
    ensures
        res.1@ == (message.0, bytes_contents(message.1)),
{
    let handed = Ghost((message.0, bytes_contents(message.1)));
    (tx.send(message).is_ok(), handed)
}

/// Why a write to a stream failed.
#[derive(Debug, Clone, Copy, PartialEq, Eq, Structural)]
pub enum StreamWriteError {
    /// The stream is closed.
    Closed,
    /// The session no longer takes data.
    ChannelClosed,
}

/// How many bytes a read with room for `room` bytes takes of `waiting`.
pub open spec fn read_amount(waiting: Seq<u8>, room: nat) -> nat {
    if waiting.len() < room {
        waiting.len()
    } else {
        room
    }
}

/// What a write of `len` bytes comes to: refused on a closed stream, refused when
/// the session did not take the data, and otherwise all `len` bytes written.
pub open spec fn spec_write_outcome(closed: bool, delivered: bool, len: nat) -> Result<
    usize,
    StreamWriteError,
> {
    if closed {
        Err(StreamWriteError::Closed)
    } else if !delivered {
        Err(StreamWriteError::ChannelClosed)
    } else {
        Ok(len as usize)
    }
}

/// What a write of `len` bytes comes to, given whether the stream was closed and
/// whether the session took the data.
pub fn write_outcome(closed: bool, delivered: bool, len: usize) -> (res: Result<
    usize,
    StreamWriteError,
>)
    ensures
        res == spec_write_outcome(closed, delivered, len as nat),
{
    if closed {
        Err(StreamWriteError::Closed)
    } else if !delivered {
        Err(StreamWriteError::ChannelClosed)
    } else {
        Ok(len)
    }
}

/// Stream represents a single data stream within a Session
pub struct Stream {
    id: u32,
    reader_rx: UnboundedReceiver<Bytes>,
    reader_buffer: Vec<u8>,
    writer_tx: UnboundedSender<(u32, Bytes)>,
    is_closed: Arc<AtomicBool>,
    close_error: Arc<Mutex<Option<AnyTlsError>>>,
    received: Ghost<Seq<u8>>,
    delivered: Ghost<Seq<u8>>,
    sent: Ghost<Seq<(u32, Seq<u8>)>>,
    closed_seen: Ghost<bool>,
}

impl Stream {
    /// The stream's id.
    pub closed spec fn spec_id(&self) -> u32 {
        self.id
    }

    /// The received bytes that no read has taken yet, in order.
    pub closed spec fn buffered(&self) -> Seq<u8> {
        self.reader_buffer@
    }

    /// Every byte of the chunks that the stream has taken from the session, in the
    /// order they came.
    pub closed spec fn received(&self) -> Seq<u8> {
        self.received@
    }

    /// Every byte that the stream has handed to reads, in the order it handed them.
    pub closed spec fn delivered(&self) -> Seq<u8> {
        self.delivered@
    }

    /// The messages that the session's channel has taken from this stream, in
    /// order: each the stream's id and the bytes written.
    pub closed spec fn sent(&self) -> Seq<(u32, Seq<u8>)> {
        self.sent@
    }

    /// The closed flag as the stream's last write read it (`false` before any write).
    pub closed spec fn closed_as_read(&self) -> bool {
        self.closed_seen@
    }

    /// No byte received is lost, repeated or moved: what the reads were handed,
    /// followed by what still waits in the buffer, is what was received.
    pub open spec fn keeps_order(&self) -> bool {
        self.delivered() + self.buffered() == self.received()
    }

    /// Create a new stream that receives the session's chunks on `reader_rx` and
    /// sends `(id, data)` to the session on `writer_tx`.
    pub fn new(
        id: u32,
        reader_rx: UnboundedReceiver<Bytes>,
        writer_tx: UnboundedSender<(u32, Bytes)>,
    ) -> (res: Self)
        ensures
            res.spec_id() == id,
            res.buffered() == Seq::<u8>::empty(),
            res.received() == Seq::<u8>::empty(),
            res.delivered() == Seq::<u8>::empty(),
            res.sent() == Seq::<(u32, Seq<u8>)>::empty(),
            !res.closed_as_read(),
            res.keeps_order(),
    {
        Stream {
            id,
            reader_rx,
            reader_buffer: Vec::new(),
            writer_tx,
            is_closed: Arc::new(AtomicBool::new(false)),
            close_error: Arc::new(error_slot_new()),
            received: Ghost(Seq::empty()),
            delivered: Ghost(Seq::empty()),
            sent: Ghost(Seq::empty()),
            closed_seen: Ghost(false),
        }
    }

    /// Get stream ID
    pub fn id(&self) -> (res: u32)
        ensures
            res == self.spec_id(),
    {
        self.id
    }

    /// Close the stream locally (without notifying remote)
    pub fn close_locally(&mut self)
        ensures
            final(self).spec_id() == old(self).spec_id(),
            final(self).buffered() == old(self).buffered(),
            final(self).received() == old(self).received(),
            final(self).delivered() == old(self).delivered(),
            final(self).sent() == old(self).sent(),
            final(self).error_slot() == old(self).error_slot(),
            final(self).spec_receiver() == old(self).spec_receiver(),
    {
        self.is_closed.store(true, Ordering::Relaxed);
    }

    /// Marks the stream closed; `true` when this call closed it, `false` when it
    /// was closed already. The flag is shared, so nothing is known of it here.
    pub fn mark_closed(&self) -> bool {
        self.is_closed.compare_exchange(false, true, Ordering::Acquire, Ordering::Relaxed).is_ok()
    }

    /// The place that holds the error the stream was closed with.
    pub closed spec fn error_slot(&self) -> Arc<Mutex<Option<AnyTlsError>>> {
        self.close_error
    }

    /// The channel end on which the session's chunks arrive.
    pub closed spec fn spec_receiver(&self) -> UnboundedReceiver<Bytes> {
        self.reader_rx
    }

    /// The place that holds the error the stream was closed with: the stream's own
    /// slot, the same one at every call.
    pub fn close_error(&self) -> (res: Arc<Mutex<Option<AnyTlsError>>>)
        ensures
            res == self.error_slot(),
    {
        self.close_error.clone()
    }

    /// Check if stream is closed. The flag is shared, so nothing is known of it here.
    pub fn is_closed(&self) -> bool {
        self.is_closed.load(Ordering::Relaxed)
    }

    /// Whether received bytes wait in the buffer.
    pub fn has_buffered(&self) -> (res: bool)
        ensures
            res == (self.buffered().len() > 0),
    {
        self.reader_buffer.len() > 0
    }

    /// The channel on which the session's chunks arrive.
    pub fn receiver(&mut self) -> (res: &mut UnboundedReceiver<Bytes>)
        ensures
            *res == old(self).spec_receiver(),
            final(self).spec_receiver() == *final(res),
            final(self).error_slot() == old(self).error_slot(),
            final(self).spec_id() == old(self).spec_id(),
            final(self).buffered() == old(self).buffered(),
            final(self).received() == old(self).received(),
            final(self).delivered() == old(self).delivered(),
            final(self).sent() == old(self).sent(),
    {
        &mut self.reader_rx
    }

    /// Try to read from buffer only (non-blocking, for use in proxy tasks to
    /// minimize lock hold time). Returns number of bytes read, or 0 if buffer is
    /// empty; the bytes read leave the buffer.
    pub fn try_read_from_buffer(&mut self, buf: &mut [u8]) -> (res: usize)
        ensures
            res == read_amount(old(self).buffered(), old(buf)@.len()),
            final(buf)@ == old(self).buffered().take(res as int) + old(buf)@.skip(res as int),
            final(self).buffered() == old(self).buffered().skip(res as int),
            final(self).delivered() == old(self).delivered() + old(self).buffered().take(
                res as int,
            ),
            final(self).received() == old(self).received(),
            final(self).sent() == old(self).sent(),
            final(self).spec_id() == old(self).spec_id(),
            final(self).error_slot() == old(self).error_slot(),
            final(self).spec_receiver() == old(self).spec_receiver(),
            is_read_call(*old(self), *final(self)),
            old(self).keeps_order() ==> final(self).keeps_order(),
    {
        let len = self.reader_buffer.len();
        let n = if len < buf.len() {
            len
        } else {
            buf.len()
        };
        copy_prefix(buf, self.reader_buffer.as_slice(), n);
        let ghost waiting = self.reader_buffer@;
        let rest = self.reader_buffer.split_off(n);
        self.reader_buffer = rest;
        self.delivered = Ghost(self.delivered@ + waiting.take(n as int));
        assert(waiting.take(n as int) + waiting.skip(n as int) =~= waiting);
        assert(self.delivered@ + self.reader_buffer@ =~= old(self).delivered@ + waiting.take(
            n as int,
        ) + waiting.skip(n as int));
        assert(old(self).delivered@ + waiting.take(n as int) + waiting.skip(n as int)
            =~= old(self).delivered@ + waiting);
        assert(read_call_with(*old(self), *self, Seq::empty(), n as nat)) by {
            assert(old(self).buffered() + Seq::<u8>::empty() =~= old(self).buffered());
            assert(old(self).received() + Seq::<u8>::empty() =~= old(self).received());
        }
        n
    }

    /// The first step of a read: what waits in the buffer is handed out first, as
    /// `try_read_from_buffer` does (`Some` of the count). `None` when nothing waits:
    /// the read then takes the next chunk from the session, with `store_in_buffer`.
    pub fn read_buffered(&mut self, buf: &mut [u8]) -> (res: Option<usize>)
        ensures
            old(self).buffered().len() == 0 ==> res is None && *final(self) == *old(self)
                && final(buf)@ == old(buf)@,
            old(self).buffered().len() > 0 ==> res == Some(
                read_amount(old(self).buffered(), old(buf)@.len()) as usize,
            ),
            res matches Some(n) ==> {
                &&& final(buf)@ == old(self).buffered().take(n as int) + old(buf)@.skip(n as int)
                &&& final(self).buffered() == old(self).buffered().skip(n as int)
                &&& final(self).delivered() == old(self).delivered() + old(self).buffered().take(
                    n as int,
                )
                &&& final(self).received() == old(self).received()
                &&& final(self).sent() == old(self).sent()
                &&& final(self).spec_id() == old(self).spec_id()
                &&& final(self).error_slot() == old(self).error_slot()
                &&& final(self).spec_receiver() == old(self).spec_receiver()
            },
            is_read_call(*old(self), *final(self)),
            old(self).keeps_order() ==> final(self).keeps_order(),
    {
        if self.has_buffered() {
            Some(self.try_read_from_buffer(buf))
        } else {
            assert(read_call_with(*self, *self, Seq::empty(), 0)) by {
                assert(self.buffered() + Seq::<u8>::empty() =~= self.buffered());
                assert(self.received() + Seq::<u8>::empty() =~= self.received());
                assert(self.delivered() + self.buffered().take(0) =~= self.delivered());
                assert(self.buffered().skip(0) =~= self.buffered());
            }
            None
        }
    }

    /// Store data in buffer (call this INSIDE of lock after receiving from channel):
    /// as much of `data` as `buf` holds goes to `buf`, the rest waits in the buffer.
    pub fn store_in_buffer(&mut self, data: Bytes, buf: &mut [u8]) -> (res: usize)
        ensures
            res == read_amount(bytes_contents(data), old(buf)@.len()),
            final(buf)@ == bytes_contents(data).take(res as int) + old(buf)@.skip(res as int),
            final(self).buffered() == old(self).buffered() + bytes_contents(data).skip(res as int),
            final(self).received() == old(self).received() + bytes_contents(data),
            final(self).delivered() == old(self).delivered() + bytes_contents(data).take(
                res as int,
            ),
            final(self).sent() == old(self).sent(),
            final(self).spec_id() == old(self).spec_id(),
            final(self).error_slot() == old(self).error_slot(),
            final(self).spec_receiver() == old(self).spec_receiver(),
            old(self).buffered().len() == 0 ==> is_read_call(*old(self), *final(self)),
            old(self).keeps_order() && old(self).buffered().len() == 0
                ==> final(self).keeps_order(),
    {
        let data_bytes = bytes_as_slice(&data);
        let data_len = data_bytes.len();
        let n = if data_len < buf.len() {
            data_len
        } else {
            buf.len()
        };
        copy_prefix(buf, data_bytes, n);
        if n < data_len {
            let remaining = &data_bytes[n..data_len];
            self.reader_buffer.extend_from_slice(remaining);
            assert(self.reader_buffer@ =~= old(self).reader_buffer@ + data_bytes@.skip(n as int));
        } else {
            assert(data_bytes@.skip(n as int) =~= Seq::<u8>::empty());
            assert(self.reader_buffer@ =~= old(self).reader_buffer@ + data_bytes@.skip(n as int));
        }
        self.received = Ghost(self.received@ + data_bytes@);
        self.delivered = Ghost(self.delivered@ + data_bytes@.take(n as int));
        assert(data_bytes@.take(n as int) + data_bytes@.skip(n as int) =~= data_bytes@);
        proof {
            if old(self).buffered().len() == 0 {
                assert(self.delivered@ + self.reader_buffer@ =~= old(self).delivered@ + (
                data_bytes@.take(n as int) + data_bytes@.skip(n as int)));
                assert(old(self).buffered() + data_bytes@ =~= data_bytes@);
                assert(read_call_with(*old(self), *self, data_bytes@, n as nat));
            }
        }
        n
    }

    /// The message that carries `buf` to the session: the stream's id and a copy of
    /// the bytes.
    pub fn outgoing_message(&self, buf: &[u8]) -> (m: (u32, Bytes))
        ensures
            m.0 == self.spec_id(),
            bytes_contents(m.1) == buf@,
    {
        (self.id, bytes_copy_from_slice(buf))
    }

    /// Sends `buf` to the session as this stream's data: the whole of it, as one
    /// message of the stream's id and a copy of `buf`, or nothing when the stream is
    /// closed or the session takes no more data.
    pub fn write_data(&mut self, buf: &[u8]) -> (res: Result<usize, StreamWriteError>)
        ensures
            exists|closed: bool, delivered: bool|
                res == #[trigger] spec_write_outcome(closed, delivered, buf@.len()),
            res is Ok ==> final(self).sent() == old(self).sent().push(
                (old(self).spec_id(), buf@),
            ),
            res is Err ==> final(self).sent() == old(self).sent(),
            res == spec_write_outcome(
                final(self).closed_as_read(),
                final(self).sent().len() > old(self).sent().len(),
                buf@.len(),
            ),
            final(self).spec_id() == old(self).spec_id(),
            final(self).buffered() == old(self).buffered(),
            final(self).received() == old(self).received(),
            final(self).delivered() == old(self).delivered(),
            final(self).error_slot() == old(self).error_slot(),
            final(self).spec_receiver() == old(self).spec_receiver(),
    {
        let len = buf.len();
        let closed = self.is_closed.load(Ordering::Relaxed);
        self.closed_seen = Ghost(closed);
        if closed {
            let res = write_outcome(true, false, len);
            assert(res == spec_write_outcome(true, false, buf@.len()));
            return res;
        }
        let message = self.outgoing_message(buf);
        let (delivered, handed) = channel_send(&self.writer_tx, message);
        if delivered {
            self.sent = Ghost(self.sent@.push(handed@));
        }
        let res = write_outcome(false, delivered, len);
        assert(res == spec_write_outcome(false, delivered, buf@.len()));
        res
    }
}

/// A write is refused as `Closed` exactly when the stream was read as closed, and as
/// `ChannelClosed` exactly when it was open and the session did not take the data;
/// otherwise it succeeds with the whole length, whatever that length is.
pub proof fn lemma_write_refusals(closed: bool, delivered: bool, len: nat)
    requires
        len <= usize::MAX,
    ensures
        spec_write_outcome(closed, delivered, len) == Err::<usize, StreamWriteError>(
            StreamWriteError::Closed,
        ) <==> closed,
        spec_write_outcome(closed, delivered, len) == Err::<usize, StreamWriteError>(
            StreamWriteError::ChannelClosed,
        ) <==> !closed && !delivered,
        spec_write_outcome(closed, delivered, len) is Ok <==> !closed && delivered,
        spec_write_outcome(closed, delivered, len) is Ok ==> spec_write_outcome(
            closed,
            delivered,
            len,
        ) == Ok::<usize, StreamWriteError>(len as usize) && len as usize == len,
{
}

/// One read call that takes `chunk` from the session (nothing, for a read from the
/// buffer alone; a chunk only while nothing waits) and hands out the first `n` bytes
/// of what then waits, as the stream is before and after it.
pub open spec fn read_call_with(before: Stream, after: Stream, chunk: Seq<u8>, n: nat) -> bool {
    let waiting = before.buffered() + chunk;
    &&& chunk.len() == 0 || before.buffered().len() == 0
    &&& n <= waiting.len()
    &&& after.received() == before.received() + chunk
    &&& after.delivered() == before.delivered() + waiting.take(n as int)
    &&& after.buffered() == waiting.skip(n as int)
}

/// `after` follows `before` by one read call.
pub open spec fn is_read_call(before: Stream, after: Stream) -> bool {
    exists|chunk: Seq<u8>, n: nat| #[trigger] read_call_with(before, after, chunk, n)
}

/// `b` starts with `a`.
pub open spec fn starts_with(b: Seq<u8>, a: Seq<u8>) -> bool {
    a.len() <= b.len() && b.take(a.len() as int) == a
}

/// Reads hand out the received bytes in order, losing and repeating none: along
/// any sequence of read calls, a stream that started in order stays in order, what
/// was received and what was handed out only grow at their ends, and once the buffer
/// is empty at both ends the bytes handed out meanwhile are exactly those received
/// meanwhile.
pub proof fn lemma_read_calls_keep_order(ss: Seq<Stream>)
    requires
        ss.len() > 0,
        ss[0].keeps_order(),
        forall|i: int| 0 <= i < ss.len() - 1 ==> #[trigger] is_read_call(ss[i], ss[i + 1]),
    ensures
        forall|i: int|
            0 <= i < ss.len() ==> {
                &&& #[trigger] ss[i].keeps_order()
                &&& starts_with(ss[i].received(), ss[0].received())
                &&& starts_with(ss[i].delivered(), ss[0].delivered())
            },
        ss[0].buffered().len() == 0 && ss.last().buffered().len() == 0 ==> ss.last().delivered().skip(
            ss[0].delivered().len() as int,
        ) == ss.last().received().skip(ss[0].received().len() as int),
    decreases ss.len(),
{
    if ss.len() > 1 {
        let front = ss.drop_last();
        assert forall|i: int| 0 <= i < front.len() - 1 implies #[trigger] is_read_call(
            front[i],
            front[i + 1],
        ) by {
            assert(is_read_call(ss[i], ss[i + 1]));
        }
        lemma_read_calls_keep_order(front);
        let k = ss.len() - 1;
        let prev = ss[k - 1];
        let next = ss[k];
        assert(front[k - 1] == prev);
        let j = k - 1;
        assert(is_read_call(ss[j], ss[j + 1]));
        assert(j + 1 == k);
        let (chunk, n) = choose|chunk: Seq<u8>, n: nat| #[trigger]
            read_call_with(prev, next, chunk, n);
        let waiting = prev.buffered() + chunk;
        assert(prev.keeps_order());
        assert(waiting.take(n as int) + waiting.skip(n as int) =~= waiting);
        assert(next.delivered() + next.buffered() =~= prev.delivered() + (waiting.take(n as int)
            + waiting.skip(n as int)));
        assert(next.delivered() + next.buffered() =~= next.received());
        assert(starts_with(prev.received(), ss[0].received()));
        assert(starts_with(prev.delivered(), ss[0].delivered()));
        assert(next.received().take(ss[0].received().len() as int) =~= prev.received().take(
            ss[0].received().len() as int,
        ));
        assert(next.delivered().take(ss[0].delivered().len() as int) =~= prev.delivered().take(
            ss[0].delivered().len() as int,
        ));
        assert forall|i: int| 0 <= i < ss.len() implies {
            &&& #[trigger] ss[i].keeps_order()
            &&& starts_with(ss[i].received(), ss[0].received())
            &&& starts_with(ss[i].delivered(), ss[0].delivered())
        } by {
            if i < k {
                assert(front[i] == ss[i]);
            }
        }
    }
    assert(ss[0].received().take(ss[0].received().len() as int) =~= ss[0].received());
    assert(ss[0].delivered().take(ss[0].delivered().len() as int) =~= ss[0].delivered());
    let last = ss.last();
    if ss[0].buffered().len() == 0 && last.buffered().len() == 0 {
        assert(last.delivered() + last.buffered() =~= last.delivered());
        assert(ss[0].delivered() + ss[0].buffered() =~= ss[0].delivered());
    }
}

/// Once nothing waits in the buffer, a stream that kept its bytes in order has
/// handed to reads exactly the bytes it received: a chunk stored and then read
/// until the buffer is empty comes back whole and in order.
pub proof fn lemma_drained_stream_delivered_all(s: &Stream)
    requires
        s.keeps_order(),
        s.buffered().len() == 0,
    ensures
        s.delivered() == s.received(),
{
    assert(s.delivered() + s.buffered() =~= s.delivered());
}

/// Copies the first `n` bytes of `src` over the first `n` bytes of `dst`.
fn copy_prefix(dst: &mut [u8], src: &[u8], n: usize)
    requires
        n <= old(dst)@.len(),
        n <= src@.len(),
    ensures
        final(dst)@ == src@.take(n as int) + old(dst)@.skip(n as int),
{
    let ghost original = dst@;
    for i in 0..n
        invariant
            n <= src@.len(),
            dst@.len() == original.len(),
            n <= original.len(),
            dst@ == src@.take(i as int) + original.skip(i as int),
    {
        dst[i] = src[i];
        assert(dst@ =~= src@.take(i + 1) + original.skip(i + 1));
    }
}

/// What successive reads with room `rooms[0]`, `rooms[1]`, ... take from the buffer
/// holding `waiting` (each as `try_read_from_buffer` takes it), one after the other,
/// and what still waits after them.
pub open spec fn successive_reads(waiting: Seq<u8>, rooms: Seq<nat>) -> (Seq<u8>, Seq<u8>)
    decreases rooms.len(),
{
    if rooms.len() == 0 {
        (Seq::empty(), waiting)
    } else {
        let n = read_amount(waiting, rooms[0]);
        let (later, rest) = successive_reads(waiting.skip(n as int), rooms.drop_first());
        (waiting.take(n as int) + later, rest)
    }
}

/// Reads neither lose nor reorder buffered bytes: what successive reads hand out,
/// followed by what still waits, is what waited before them.
pub proof fn lemma_reads_keep_order(waiting: Seq<u8>, rooms: Seq<nat>)
    ensures
        successive_reads(waiting, rooms).0 + successive_reads(waiting, rooms).1 == waiting,
    decreases rooms.len(),
{
    if rooms.len() > 0 {
        let n = read_amount(waiting, rooms[0]);
        lemma_reads_keep_order(waiting.skip(n as int), rooms.drop_first());
        let (later, rest) = successive_reads(waiting.skip(n as int), rooms.drop_first());
        assert(waiting.take(n as int) + later + rest =~= waiting.take(n as int) + (later + rest));
        assert(waiting.take(n as int) + waiting.skip(n as int) =~= waiting);
    }
}

/// A chunk stored while nothing waits is split, not changed: the part handed to the
/// read, followed by the part left waiting, is the chunk.
pub proof fn lemma_store_splits_chunk(chunk: Seq<u8>, room: nat)
    ensures
        chunk.take(read_amount(chunk, room) as int) + (Seq::<u8>::empty() + chunk.skip(
            read_amount(chunk, room) as int,
        )) == chunk,
{
    let n = read_amount(chunk, room) as int;
    assert(chunk.take(n) + (Seq::<u8>::empty() + chunk.skip(n)) =~= chunk);
}

} // verus!

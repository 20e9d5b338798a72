//! Queues of what is still to be sent.

use crate::ordmap::{lists, OrdMap};
use crate::proto::codec::Wire;
use crate::proto::wire::{Frame, FrameValue};
use crate::stream::{
    all_framed, framed, frames_in, lemma_frames_in_front, sendable, FrameSendStream, SendPoll,
    StreamAddr, StreamError,
};
use std::collections::VecDeque;
use vstd::prelude::*;

verus! {

/// Number of items in all queues.
pub open spec fn total<T>(queues: Map<StreamAddr, Seq<T>>) -> nat
    recommends
        queues.dom().finite(),
    decreases queues.dom().len(),
{
    if queues.dom().finite() && queues.dom().len() > 0 {
        let addr = queues.dom().choose();
        queues[addr].len() + total(queues.remove(addr))
    } else {
        0
    }
}

/// Any queue can be counted apart from the others.
pub proof fn lemma_total_apart<T>(queues: Map<StreamAddr, Seq<T>>, addr: StreamAddr)
    requires
        queues.dom().finite(),
        queues.dom().contains(addr),
    ensures
        total(queues) == queues[addr].len() + total(queues.remove(addr)),
    decreases queues.dom().len(),
{
    let first = queues.dom().choose();
    if first != addr {
        lemma_total_apart(queues.remove(first), addr);
        lemma_total_apart(queues.remove(addr), first);
        assert(queues.remove(first).remove(addr) =~= queues.remove(addr).remove(first));
    }
}

/// Replacing a queue, or adding one, changes the total by the difference of the lengths.
proof fn lemma_total_insert<T>(queues: Map<StreamAddr, Seq<T>>, addr: StreamAddr, queue: Seq<T>)
    requires
        queues.dom().finite(),
    ensures
        total(queues.insert(addr, queue)) == queue.len() + total(queues.remove(addr)),
        total(queues) == total(queues.remove(addr)) + (if queues.dom().contains(addr) {
            queues[addr].len()
        } else {
            0
        }),
{
    let after = queues.insert(addr, queue);
    lemma_total_apart(after, addr);
    assert(after.remove(addr) =~= queues.remove(addr));
    if queues.dom().contains(addr) {
        lemma_total_apart(queues, addr);
    } else {
        assert(queues.remove(addr) =~= queues);
    }
}

/// Queues of items, one for each stream.
pub struct Outqueues<T> {
    queues: OrdMap<StreamAddr, VecDeque<T>>,
    len: usize,
}

impl<T> View for Outqueues<T> {
    type V = Map<StreamAddr, Seq<T>>;

    closed spec fn view(&self) -> Map<StreamAddr, Seq<T>> {
        self.queues@.map_values(|q: VecDeque<T>| q@)
    }
}

impl<T> Default for Outqueues<T> {
    fn default() -> (r: Self)
        ensures
            r.wf(),
            r@ == Map::<StreamAddr, Seq<T>>::empty(),
    {
        Self::new()
    }
}

/// What is queued for a stream.
pub open spec fn queued<T>(queues: Map<StreamAddr, Seq<T>>, addr: StreamAddr) -> Seq<T> {
    if queues.dom().contains(addr) {
        queues[addr]
    } else {
        Seq::empty()
    }
}

impl<T> Outqueues<T> {
    /// Whether the count is that of all queued items.
    pub closed spec fn wf(&self) -> bool {
        &&& self.queues.wf()
        &&& self.len == total(self@)
    }

    /// The queues are finitely many.
    proof fn lemma_finite(&self)
        requires
            self.wf(),
        ensures
            self@.dom().finite(),
    {
        self.queues.lemma_keys();
        assert(self@.dom() =~= self.queues@.dom());
    }

    /// No queues.
    pub fn new() -> (r: Self)
        ensures
            r.wf(),
            r@ == Map::<StreamAddr, Seq<T>>::empty(),
    {
        let r = Outqueues { queues: OrdMap::new(), len: 0 };
        assert(r@ =~= Map::<StreamAddr, Seq<T>>::empty());
        r
    }

    /// Removes the first item that is queued for a stream.
    pub fn pop_front(&mut self, addr: &StreamAddr) -> (r: Option<T>)
        requires
            old(self).wf(),
        ensures
            final(self).wf(),
            if queued(old(self)@, *addr).len() > 0 {
                &&& r == Some(old(self)@[*addr][0])
                &&& final(self)@ == old(self)@.insert(*addr, old(self)@[*addr].drop_first())
            } else {
                &&& r is None
                &&& final(self)@ == old(self)@
            },
    {
        let ghost before = *self;
        match self.queues.remove(addr) {
            Some(mut queue) => {
                let ghost prior = queue@;
                let frame = queue.pop_front();
                self.queues.insert(*addr, queue);
                proof {
                    before.lemma_finite();
                    lemma_total_insert(before@, *addr, queue@);
                    assert(self@ =~= before@.insert(*addr, queue@));
                }
                if frame.is_some() {
                    self.len = self.len.saturating_sub(1);
                    assert(queue@ =~= prior.drop_first());
                } else {
                    assert(self@ =~= before@);
                }
                frame
            },
            None => {
                assert(self@ =~= before@);
                None
            },
        }
    }

    /// Queues an item for a stream.
    pub fn push_back(&mut self, addr: StreamAddr, frame: T)
        requires
            old(self).wf(),
            total(old(self)@) < usize::MAX,
        ensures
            final(self).wf(),
            final(self)@ == old(self)@.insert(addr, queued(old(self)@, addr).push(frame)),
            total(final(self)@) == total(old(self)@) + 1,
    {
        let ghost before = *self;
        self.len = self.len + 1;
        let mut queue = match self.queues.remove(&addr) {
            Some(queue) => queue,
            None => VecDeque::new(),
        };
        assert(queue@ =~= queued(before@, addr));
        queue.push_back(frame);
        self.queues.insert(addr, queue);
        proof {
            before.lemma_finite();
            lemma_total_insert(before@, addr, queue@);
            assert(self@ =~= before@.insert(addr, queue@));
        }
    }

    /// Whether nothing is queued for a stream.
    pub fn is_empty(&self, addr: &StreamAddr) -> (r: bool)
        requires
            self.wf(),
        ensures
            r == (queued(self@, *addr).len() == 0),
    {
        match self.queues.get(addr) {
            Some(queue) => queue.len() == 0,
            None => true,
        }
    }

    /// Drops what is queued for a stream, and counts it.
    pub fn remove(&mut self, addr: &StreamAddr) -> (r: usize)
        requires
            old(self).wf(),
        ensures
            final(self).wf(),
            final(self)@ == old(self)@.remove(*addr),
            r == queued(old(self)@, *addr).len(),
    {
        let ghost before = *self;
        let len = match self.queues.remove(addr) {
            Some(queue) => queue.len(),
            None => 0,
        };
        proof {
            before.lemma_finite();
            lemma_total_insert(before@, *addr, Seq::empty());
            assert(self@ =~= before@.remove(*addr));
        }
        self.len = self.len.saturating_sub(len);
        len
    }

    /// Number of items in all queues.
    pub fn total_len(&self) -> (r: usize)
        requires
            self.wf(),
        ensures
            r == total(self@),
    {
        self.len
    }
}

/// What a queue does with a stream next.
#[derive(Clone, Copy, Debug, PartialEq, Eq, Structural)]
pub enum QueuePoll {
    /// Writes to the transport what the stream has to write.
    Write,
    /// Nothing: nothing is queued for the stream.
    Idle,
}

/// Streams with what is to be sent on them.
pub struct SendQueue {
    queue: Outqueues<Frame>,
    streams: OrdMap<StreamAddr, FrameSendStream>,
    closing: OrdMap<StreamAddr, ()>,
    sent: usize,
}

impl Default for SendQueue {
    fn default() -> (r: Self)
        ensures
            r.wf(),
            r.frames() == Map::<StreamAddr, Seq<Frame>>::empty(),
            r.senders() == Map::<StreamAddr, FrameSendStream>::empty(),
            r.closing() == Set::<StreamAddr>::empty(),
            r.completed() == 0,
    {
        let r = SendQueue {
            queue: Outqueues::new(),
            streams: OrdMap::new(),
            closing: OrdMap::new(),
            sent: 0,
        };
        assert(r.closing() =~= Set::<StreamAddr>::empty());
        r
    }
}

impl SendQueue {
    /// The frames that are queued.
    pub closed spec fn frames(&self) -> Map<StreamAddr, Seq<Frame>> {
        self.queue@
    }

    /// The streams.
    pub closed spec fn senders(&self) -> Map<StreamAddr, FrameSendStream> {
        self.streams@
    }

    /// The streams whose sending side is closed, or will be once all that is queued is sent.
    pub closed spec fn closing(&self) -> Set<StreamAddr> {
        self.closing@.dom()
    }

    /// Whether all that was to be sent on a stream is sent, so that its sending side is to be
    /// closed.
    pub open spec fn done(&self, addr: StreamAddr) -> bool {
        &&& self.closing().contains(addr)
        &&& self.senders().dom().contains(addr)
        &&& self.senders()[addr].ready()
        &&& queued(self.frames(), addr).len() == 0
    }

    /// How often a stream had nothing left to write, or failed.
    pub closed spec fn completed(&self) -> usize {
        self.sent
    }

    /// Whether all streams are well-formed and are found under their own address.
    pub closed spec fn wf(&self) -> bool {
        &&& self.queue.wf()
        &&& self.streams.wf()
        &&& self.closing.wf()
        &&& forall|addr: StreamAddr| #[trigger]
            self.streams@.dom().contains(addr) ==> self.streams@[addr].wf()
                && self.streams@[addr].address() == addr
    }

    /// The streams are finitely many and well-formed, and each has the address that it is found
    /// under.
    pub proof fn lemma_wf(&self)
        requires
            self.wf(),
        ensures
            self.senders().dom().finite(),
            self.frames().dom().finite(),
            forall|addr: StreamAddr|
                #![trigger self.senders().dom().contains(addr)]
                #![trigger self.senders()[addr]]
                self.senders().dom().contains(addr) ==> self.senders()[addr].wf()
                    && self.senders()[addr].address() == addr,
    {
        self.streams.lemma_keys();
        self.queue.lemma_finite();
    }

    /// Number of frames that are queued.
    pub fn len(&self) -> (r: usize)
        requires
            self.wf(),
        ensures
            r == total(self.frames()),
    {
        self.queue.total_len()
    }

    /// How often a stream had nothing left to write, or failed.
    pub fn sent_count(&self) -> (r: usize)
        ensures
            r == self.completed(),
    {
        self.sent
    }

    /// Adds a stream, whose sending side is open.
    pub fn push_stream(&mut self, stream: FrameSendStream)
        requires
            old(self).wf(),
            stream.wf(),
        ensures
            final(self).wf(),
            final(self).frames() == old(self).frames(),
            final(self).senders() == old(self).senders().insert(stream.address(), stream),
            final(self).closing() == old(self).closing().remove(stream.address()),
            final(self).completed() == old(self).completed(),
    {
        let ghost before = *self;
        let addr = stream.addr();
        self.closing.remove(&addr);
        self.streams.insert(addr, stream);
        assert(self.closing() =~= before.closing().remove(addr));
    }

    /// Closes the sending side of a stream once all that is queued for it is sent.
    pub fn close(&mut self, addr: StreamAddr)
        requires
            old(self).wf(),
        ensures
            final(self).wf(),
            final(self).frames() == old(self).frames(),
            final(self).senders() == old(self).senders(),
            final(self).closing() == old(self).closing().insert(addr),
            final(self).completed() == old(self).completed(),
    {
        let ghost before = *self;
        self.closing.insert(addr, ());
        assert(self.closing() =~= before.closing().insert(addr));
    }

    /// Whether the sending side of a stream is closed, or will be once all that is queued is sent.
    pub fn is_closing(&self, addr: &StreamAddr) -> (r: bool)
        requires
            self.wf(),
        ensures
            r == self.closing().contains(*addr),
    {
        self.closing.contains(addr)
    }

    /// Whether all that was to be sent on a stream is sent, so that its sending side is to be
    /// closed.
    pub fn is_done(&self, addr: &StreamAddr) -> (r: bool)
        requires
            self.wf(),
        ensures
            r == self.done(*addr),
    {
        match self.streams.get(addr) {
            Some(stream) => stream.is_ready() && self.closing.contains(addr)
                && self.queue.is_empty(addr),
            None => false,
        }
    }

    /// Notes that the sending side of a stream was closed. The stream is dropped, and stays
    /// closed.
    pub fn finish(&mut self, addr: &StreamAddr)
        requires
            old(self).wf(),
            old(self).done(*addr),
        ensures
            final(self).wf(),
            final(self).frames() == old(self).frames().remove(*addr),
            final(self).senders() == old(self).senders().remove(*addr),
            final(self).closing() == old(self).closing(),
            final(self).completed() == old(self).completed(),
            drops_stream(*old(self), *addr, *final(self)),
    {
        self.streams.remove(addr);
        self.queue.remove(addr);
    }

    /// Queues a frame.
    pub fn push_frame(&mut self, addr: StreamAddr, frame: Frame)
        requires
            old(self).wf(),
            total(old(self).frames()) < usize::MAX,
        ensures
            final(self).wf(),
            final(self).frames() == old(self).frames().insert(
                addr,
                queued(old(self).frames(), addr).push(frame),
            ),
            final(self).senders() == old(self).senders(),
            final(self).closing() == old(self).closing(),
            final(self).completed() == old(self).completed(),
            total(final(self).frames()) == total(old(self).frames()) + 1,
    {
        self.queue.push_back(addr, frame);
    }

    /// Drops a stream and what is queued for it.
    pub fn remove(&mut self, addr: &StreamAddr)
        requires
            old(self).wf(),
        ensures
            final(self).wf(),
            final(self).frames() == old(self).frames().remove(*addr),
            final(self).senders() == old(self).senders().remove(*addr),
            final(self).closing() == old(self).closing().remove(*addr),
            final(self).completed() == old(self).completed(),
            drops_stream(*old(self), *addr, *final(self)),
    {
        let ghost before = *self;
        self.streams.remove(addr);
        self.queue.remove(addr);
        self.closing.remove(addr);
        assert(self.closing() =~= before.closing().remove(*addr));
        assert(self.closing().remove(*addr) =~= before.closing().remove(*addr));
    }

    /// The addresses of all streams, in ascending order.
    pub fn addrs(&self) -> (r: Vec<StreamAddr>)
        requires
            self.wf(),
        ensures
            lists(r@, self.senders().dom()),
    {
        let mut addrs: Vec<StreamAddr> = Vec::new();
        let mut i: usize = 0;
        while i < self.streams.len()
            invariant
                self.wf(),
                i <= self.streams.keys().len(),
                addrs@ == self.streams.keys().take(i as int),
            decreases self.streams.keys().len() - i,
        {
            addrs.push(self.streams.key_at(i));
            assert(self.streams.keys().take(i + 1) =~= self.streams.keys().take(i as int).push(
                self.streams.keys()[i as int],
            ));
            i = i + 1;
        }
        proof {
            self.streams.lemma_keys();
            assert(addrs@ =~= self.streams.keys());
        }
        addrs
    }

    /// A stream.
    pub fn stream(&self, addr: &StreamAddr) -> (r: Option<&FrameSendStream>)
        requires
            self.wf(),
        ensures
            match r {
                Some(stream) => self.senders().dom().contains(*addr) && *stream
                    == self.senders()[*addr],
                None => !self.senders().dom().contains(*addr),
            },
    {
        self.streams.get(addr)
    }

    /// Whether nothing is queued for a stream.
    pub fn is_drained(&self, addr: &StreamAddr) -> (r: bool)
        requires
            self.wf(),
        ensures
            r == (queued(self.frames(), *addr).len() == 0),
    {
        self.queue.is_empty(addr)
    }

    /// Decides what is done with a stream next. If it has nothing left to write, the next frame
    /// is started; that fails on a stream that was cancelled.
    pub fn poll_send(&mut self, addr: &StreamAddr, cancelled: bool) -> (r: Result<
        QueuePoll,
        StreamError,
    >)
        requires
            old(self).wf(),
            old(self).senders().dom().contains(*addr),
            cancelled || old(self).senders()[*addr].ready() ==> old(self).completed()
                < usize::MAX,
            cancelled && !old(self).senders()[*addr].ready() ==> queued(
                old(self).frames(),
                *addr,
            ).len() == 0,
        ensures
            final(self).wf(),
            final(self).senders().dom() == old(self).senders().dom(),
            forall|other: StreamAddr|
                other != *addr ==> #[trigger] final(self).senders()[other]
                    == old(self).senders()[other],
            polls(
                queued(old(self).frames(), *addr),
                old(self).senders()[*addr],
                cancelled,
                r,
                final(self).senders()[*addr],
            ),
            final(self).closing() == old(self).closing(),
            final(self).completed() == old(self).completed() + (if cancelled
                || old(self).senders()[*addr].ready() {
                1int
            } else {
                0int
            }),
            final(self).frames() == (if (cancelled || old(self).senders()[*addr].ready()) && queued(
                old(self).frames(),
                *addr,
            ).len() > 0 {
                old(self).frames().insert(*addr, old(self).frames()[*addr].drop_first())
            } else {
                old(self).frames()
            }),
            polls_stream(*old(self), *addr, cancelled, r, *final(self)),
    {
        let ghost before = *self;
        let mut stream = match self.streams.remove(addr) {
            Some(stream) => stream,
            None => return Ok(QueuePoll::Idle),
        };
        proof {
            stream.lemma_ready();
        }
        let polled = stream.poll_send(cancelled);
        proof {
            stream.lemma_ready();
        }
        let r = match polled {
            SendPoll::Write => Ok(QueuePoll::Write),
            SendPoll::Ready => {
                self.sent = self.sent + 1;
                match self.queue.pop_front(addr) {
                    None => Ok(QueuePoll::Idle),
                    Some(frame) => match stream.start_send(&frame) {
                        Ok(()) => Ok(QueuePoll::Write),
                        Err(e) => Err(e),
                    },
                }
            },
        };
        self.streams.insert(*addr, stream);
        assert(self.senders().dom() =~= before.senders().dom());
        assert(self.senders() =~= before.senders().insert(*addr, stream));
        r
    }

    /// Notes that the transport took the first `n` bytes that a stream had to write. A stream
    /// whose type was not taken is dropped.
    pub fn wrote(&mut self, addr: &StreamAddr, n: usize) -> (r: Result<(), StreamError>)
        requires
            old(self).wf(),
            old(self).senders().dom().contains(*addr),
            !old(self).senders()[*addr].ready(),
            n <= old(self).senders()[*addr].unsent().len(),
            old(self).senders()[*addr].at_header() && n != 1 ==> old(self).completed()
                < usize::MAX,
        ensures
            final(self).wf(),
            if old(self).senders()[*addr].at_header() && n != 1 {
                &&& r == Err::<(), StreamError>(StreamError::FailedToWriteHeader)
                &&& final(self).frames() == old(self).frames().remove(*addr)
                &&& final(self).senders() == old(self).senders().remove(*addr)
                &&& final(self).closing() == old(self).closing().remove(*addr)
                &&& final(self).completed() == old(self).completed() + 1
            } else {
                &&& r == Ok::<(), StreamError>(())
                &&& final(self).frames() == old(self).frames()
                &&& final(self).closing() == old(self).closing()
                &&& final(self).completed() == old(self).completed()
                &&& final(self).senders().dom() == old(self).senders().dom()
                &&& final(self).senders()[*addr].same_stream(old(self).senders()[*addr])
                &&& final(self).senders()[*addr].unsent()
                    == old(self).senders()[*addr].unsent().skip(n as int)
                &&& final(self).senders()[*addr].is_cancelled()
                    == old(self).senders()[*addr].is_cancelled()
                &&& !final(self).senders()[*addr].at_header()
                &&& forall|other: StreamAddr|
                    other != *addr ==> #[trigger] final(self).senders()[other]
                        == old(self).senders()[other]
            },
            takes_bytes(*old(self), *addr, n as nat, r, *final(self)),
    {
        let ghost before = *self;
        let mut stream = match self.streams.remove(addr) {
            Some(stream) => stream,
            None => return Ok(()),
        };
        match stream.wrote(n) {
            Ok(()) => {
                self.streams.insert(*addr, stream);
                assert(self.senders().dom() =~= before.senders().dom());
                assert(self.senders() =~= before.senders().insert(*addr, stream));
                Ok(())
            },
            Err(e) => {
                let e = self.failed(addr, e);
                proof {
                    assert(self.frames() =~= before.frames().remove(*addr));
                    assert(self.senders() =~= before.senders().remove(*addr));
                    assert(self.closing().remove(*addr) =~= before.closing().remove(*addr));
                }
                Err(e)
            },
        }
    }

    /// Drops a stream that failed, with what is queued for it, and hands the error on.
    pub fn failed(&mut self, addr: &StreamAddr, err: StreamError) -> (r: StreamError)
        requires
            old(self).wf(),
            old(self).completed() < usize::MAX,
        ensures
            final(self).wf(),
            final(self).frames() == old(self).frames().remove(*addr),
            final(self).senders() == old(self).senders().remove(*addr),
            final(self).closing() == old(self).closing().remove(*addr),
            final(self).completed() == old(self).completed() + 1,
            drops_stream(*old(self), *addr, *final(self)),
            r == err,
    {
        self.sent = self.sent + 1;
        self.remove(addr);
        err
    }
}

/// Whether `r` is what comes of polling `stream` with `frames` queued for it, and `after` the
/// stream afterwards.
pub open spec fn polls(
    frames: Seq<Frame>,
    stream: FrameSendStream,
    cancelled: bool,
    r: Result<QueuePoll, StreamError>,
    after: FrameSendStream,
) -> bool {
    &&& after.same_stream(stream)
    &&& after.is_cancelled() == (stream.is_cancelled() || cancelled)
    &&& if (cancelled || stream.ready()) && frames.len() > 0 {
        if after.is_cancelled() {
            r == Err::<QueuePoll, StreamError>(StreamError::StreamClosed) && after.unsent()
                == stream.unsent()
        } else {
            &&& r == Ok::<QueuePoll, StreamError>(QueuePoll::Write)
            &&& after.unsent() == crate::stream::framed(frames[0].value())
            &&& !after.at_header()
        }
    } else {
        &&& r == Ok::<QueuePoll, StreamError>(
            if cancelled || stream.ready() {
                QueuePoll::Idle
            } else {
                QueuePoll::Write
            },
        )
        &&& after.unsent() == stream.unsent()
        &&& after.at_header() == stream.at_header()
    }
}

/// Whether `after` is `before` with a stream polled, and `r` what comes of it.
pub open spec fn polls_stream(
    before: SendQueue,
    addr: StreamAddr,
    cancelled: bool,
    r: Result<QueuePoll, StreamError>,
    after: SendQueue,
) -> bool {
    let stream = before.senders()[addr];
    let idle = cancelled || stream.ready();
    &&& polls(queued(before.frames(), addr), stream, cancelled, r, after.senders()[addr])
    &&& after.senders() == before.senders().insert(addr, after.senders()[addr])
    &&& after.closing() == before.closing()
    &&& after.frames() == (if idle && queued(before.frames(), addr).len() > 0 {
        before.frames().insert(addr, before.frames()[addr].drop_first())
    } else {
        before.frames()
    })
}

/// Whether `after` is `before` once the transport took `n` bytes of a stream, and `r` what comes of
/// it.
pub open spec fn takes_bytes(
    before: SendQueue,
    addr: StreamAddr,
    n: nat,
    r: Result<(), StreamError>,
    after: SendQueue,
) -> bool {
    if before.senders()[addr].at_header() && n != 1 {
        &&& r == Err::<(), StreamError>(StreamError::FailedToWriteHeader)
        &&& drops_stream(before, addr, after)
    } else {
        &&& r == Ok::<(), StreamError>(())
        &&& after.frames() == before.frames()
        &&& after.closing() == before.closing()
        &&& after.senders() == before.senders().insert(addr, after.senders()[addr])
        &&& after.senders()[addr].same_stream(before.senders()[addr])
        &&& after.senders()[addr].unsent() == before.senders()[addr].unsent().skip(n as int)
    }
}

/// Whether `after` is `before` without a stream and what was queued for it.
pub open spec fn drops_stream(before: SendQueue, addr: StreamAddr, after: SendQueue) -> bool {
    &&& after.frames() == before.frames().remove(addr)
    &&& after.senders() == before.senders().remove(addr)
    &&& after.closing().remove(addr) == before.closing().remove(addr)
}

/// Items leave the queue of a stream in the order in which they were queued.
pub proof fn law_queue_is_first_in_first_out<T>(
    queues: Map<StreamAddr, Seq<T>>,
    addr: StreamAddr,
    item: T,
)
    ensures
        ({
            let pushed = queues.insert(addr, queued(queues, addr).push(item));
            &&& queued(pushed, addr).last() == item
            &&& queued(queues, addr).len() > 0 ==> queued(pushed, addr)[0] == queued(
                queues,
                addr,
            )[0]
            &&& queued(queues, addr).len() == 0 ==> queued(pushed, addr)[0] == item
        }),
{
}

/// Queueing an item makes the total one larger, and taking one makes it one smaller.
pub proof fn law_total_counts<T>(queues: Map<StreamAddr, Seq<T>>, addr: StreamAddr, item: T)
    requires
        queues.dom().finite(),
    ensures
        total(queues.insert(addr, queued(queues, addr).push(item))) == total(queues) + 1,
        queued(queues, addr).len() > 0 ==> total(
            queues.insert(addr, queues[addr].drop_first()),
        ) + 1 == total(queues),
{
    lemma_total_insert(queues, addr, queued(queues, addr).push(item));
    lemma_total_insert(queues, addr, queues[addr].drop_first());
}

/// A stream with the frames that are queued for it.
pub struct Sending {
    pub stream: FrameSendStream,
    pub queue: Seq<FrameValue>,
}

/// What happens to a stream and its queue.
pub enum SendStep {
    /// The stream was polled.
    Polled,
    /// The transport took that many bytes.
    Took(nat),
    /// A frame was queued.
    Queued(FrameValue),
}

/// The bytes that are still to be written: the rest of what was started, then all queued frames.
pub open spec fn outstanding(s: Sending) -> Seq<u8> {
    s.stream.unsent() + all_framed(s.queue)
}

/// Whether a step leads from one state to another. A stream that is polled with nothing left to
/// write starts the first queued frame.
pub open spec fn step_leads(before: Sending, step: SendStep, after: Sending) -> bool {
    &&& before.stream.wf()
    &&& after.stream.wf()
    &&& match step {
        SendStep::Polled => if before.stream.ready() && before.queue.len() > 0 {
            &&& after.stream.unsent() == framed(before.queue[0])
            &&& after.queue == before.queue.drop_first()
        } else {
            &&& after.stream.unsent() == before.stream.unsent()
            &&& after.queue == before.queue
        },
        SendStep::Took(n) => {
            &&& n <= before.stream.unsent().len()
            &&& after.stream.unsent() == before.stream.unsent().skip(n as int)
            &&& after.queue == before.queue
        },
        SendStep::Queued(frame) => {
            &&& after.stream == before.stream
            &&& after.queue == before.queue.push(frame)
        },
    }
}

/// Whether the steps lead through the states, one after the other.
pub open spec fn steps_lead(states: Seq<Sending>, steps: Seq<SendStep>) -> bool {
    &&& states.len() == steps.len() + 1
    &&& forall|i: int|
        0 <= i < steps.len() ==> step_leads(states[i], #[trigger] steps[i], states[i + 1])
}

/// The bytes that the transport takes in a step.
pub open spec fn step_bytes(before: Sending, step: SendStep) -> Seq<u8> {
    match step {
        SendStep::Took(n) => before.stream.unsent().take(n as int),
        _ => Seq::empty(),
    }
}

/// The frames that are queued in a step.
pub open spec fn step_frames(step: SendStep) -> Seq<FrameValue> {
    match step {
        SendStep::Queued(frame) => seq![frame],
        _ => Seq::empty(),
    }
}

/// The bytes that the transport took in the course of some steps.
pub open spec fn bytes_taken(states: Seq<Sending>, steps: Seq<SendStep>) -> Seq<u8>
    decreases steps.len(),
{
    if steps.len() == 0 {
        Seq::empty()
    } else {
        bytes_taken(states, steps.drop_last()) + step_bytes(states[steps.len() - 1], steps.last())
    }
}

/// The frames that were queued in the course of some steps.
pub open spec fn frames_added(steps: Seq<SendStep>) -> Seq<FrameValue>
    decreases steps.len(),
{
    if steps.len() == 0 {
        Seq::empty()
    } else {
        frames_added(steps.drop_last()) + step_frames(steps.last())
    }
}

/// One more frame takes its bytes behind those of the others.
proof fn lemma_all_framed_push(frames: Seq<FrameValue>, frame: FrameValue)
    ensures
        all_framed(frames.push(frame)) == all_framed(frames) + framed(frame),
    decreases frames.len(),
{
    reveal_with_fuel(all_framed, 2);
    if frames.len() == 0 {
        assert(frames.push(frame).skip(1) =~= Seq::<FrameValue>::empty());
        assert(all_framed(frames.push(frame)) =~= all_framed(frames) + framed(frame));
    } else {
        lemma_all_framed_push(frames.skip(1), frame);
        assert(frames.push(frame).skip(1) =~= frames.skip(1).push(frame));
        assert(all_framed(frames.push(frame)) =~= all_framed(frames) + framed(frame));
    }
}

/// The bytes of some frames and of some more are the bytes of all of them.
proof fn lemma_all_framed_add(a: Seq<FrameValue>, b: Seq<FrameValue>)
    ensures
        all_framed(a + b) == all_framed(a) + all_framed(b),
    decreases b.len(),
{
    if b.len() == 0 {
        assert(a + b =~= a);
        assert(all_framed(a) + all_framed(b) =~= all_framed(a));
    } else {
        lemma_all_framed_add(a, b.drop_last());
        lemma_all_framed_push(a + b.drop_last(), b.last());
        lemma_all_framed_push(b.drop_last(), b.last());
        assert(a + b =~= (a + b.drop_last()).push(b.last()));
        assert(b =~= b.drop_last().push(b.last()));
        assert(all_framed(a + b) =~= all_framed(a) + all_framed(b));
    }
}

/// In one step nothing is lost, made up or reordered.
proof fn lemma_step_keeps_order(before: Sending, step: SendStep, after: Sending)
    requires
        step_leads(before, step, after),
    ensures
        step_bytes(before, step) + outstanding(after) == outstanding(before) + all_framed(
            step_frames(step),
        ),
{
    before.stream.lemma_ready();
    let none = all_framed(Seq::<FrameValue>::empty());
    assert(none =~= Seq::<u8>::empty());
    match step {
        SendStep::Polled => {
            if before.stream.ready() && before.queue.len() > 0 {
                assert(before.queue.skip(1) =~= before.queue.drop_first());
                assert(outstanding(after) =~= outstanding(before));
            }
            assert(Seq::<u8>::empty() + outstanding(after) =~= outstanding(before) + none);
        },
        SendStep::Took(k) => {
            let unsent = before.stream.unsent();
            assert(unsent.take(k as int) + unsent.skip(k as int) =~= unsent);
            assert(unsent.take(k as int) + outstanding(after) =~= outstanding(before) + none);
        },
        SendStep::Queued(frame) => {
            lemma_all_framed_push(before.queue, frame);
            lemma_all_framed_push(Seq::empty(), frame);
            assert(Seq::<FrameValue>::empty().push(frame) =~= seq![frame]);
            assert(none + framed(frame) =~= framed(frame));
            assert(Seq::<u8>::empty() + outstanding(after) =~= outstanding(before) + framed(frame));
        },
    }
}

/// Frames leave a stream one after the other, in the order in which they were queued: what the
/// transport took, followed by what is still to be written, is what was to be written at first,
/// followed by the frames that were queued since.
pub proof fn law_frames_leave_in_order(states: Seq<Sending>, steps: Seq<SendStep>)
    requires
        steps_lead(states, steps),
    ensures
        bytes_taken(states, steps) + outstanding(states.last()) == outstanding(states[0])
            + all_framed(frames_added(steps)),
    decreases steps.len(),
{
    if steps.len() == 0 {
        assert(bytes_taken(states, steps) + outstanding(states.last()) =~= outstanding(states[0])
            + all_framed(frames_added(steps)));
    } else {
        let fewer = steps.drop_last();
        let earlier = states.drop_last();
        let n = fewer.len() as int;
        assert forall|i: int| 0 <= i < fewer.len() implies step_leads(
            earlier[i],
            #[trigger] fewer[i],
            earlier[i + 1],
        ) by {
            assert(step_leads(states[i], steps[i], states[i + 1]));
        }
        law_frames_leave_in_order(earlier, fewer);
        lemma_bytes_taken_prefix(states, fewer);
        assert(step_leads(states[n], steps[n], states[n + 1]));
        assert(earlier.last() == states[n]);
        lemma_step_keeps_order(states[n], steps[n], states[n + 1]);
        lemma_all_framed_add(frames_added(fewer), step_frames(steps[n]));
        lemma_regrouped(
            bytes_taken(states, fewer),
            step_bytes(states[n], steps[n]),
            outstanding(states[n + 1]),
            outstanding(states[n]),
            all_framed(step_frames(steps[n])),
            outstanding(states[0]),
            all_framed(frames_added(fewer)),
        );
    }
}

/// How the bytes of one more step fit behind those of the steps before it.
proof fn lemma_regrouped(
    taken: Seq<u8>,
    more: Seq<u8>,
    after: Seq<u8>,
    before: Seq<u8>,
    queued: Seq<u8>,
    first: Seq<u8>,
    added: Seq<u8>,
)
    requires
        more + after == before + queued,
        taken + before == first + added,
    ensures
        (taken + more) + after == first + (added + queued),
{
    assert((taken + more) + after =~= taken + (more + after));
    assert(taken + (before + queued) =~= (taken + before) + queued);
    assert((first + added) + queued =~= first + (added + queued));
}

/// What was taken does not depend on the states that come later.
proof fn lemma_bytes_taken_prefix(states: Seq<Sending>, steps: Seq<SendStep>)
    requires
        states.len() > steps.len() + 1,
    ensures
        bytes_taken(states, steps) == bytes_taken(states.drop_last(), steps),
    decreases steps.len(),
{
    if steps.len() > 0 {
        lemma_bytes_taken_prefix(states, steps.drop_last());
        assert(states.drop_last()[steps.len() - 1] == states[steps.len() - 1]);
    }
}

/// Once nothing is left to write, a receiver has exactly the frames that were queued, in order.
pub proof fn law_queued_frames_arrive(states: Seq<Sending>, steps: Seq<SendStep>)
    requires
        steps_lead(states, steps),
        states[0].stream.unsent().len() == 0,
        outstanding(states.last()).len() == 0,
        forall|i: int|
            0 <= i < (states[0].queue + frames_added(steps)).len() ==> sendable(
                #[trigger] (states[0].queue + frames_added(steps))[i],
            ),
    ensures
        frames_in(bytes_taken(states, steps)) == states[0].queue + frames_added(steps),
{
    let frames = states[0].queue + frames_added(steps);
    law_frames_leave_in_order(states, steps);
    lemma_all_framed_add(states[0].queue, frames_added(steps));
    lemma_frames_in_front(frames, Seq::empty());
    assert(all_framed(frames) + Seq::<u8>::empty() =~= bytes_taken(states, steps));
}

/// Frames take bytes on a stream, and only frames do.
pub proof fn lemma_frames_take_bytes(frames: Seq<FrameValue>)
    ensures
        all_framed(frames).len() == 0 <==> frames.len() == 0,
{
    if frames.len() > 0 {
        assert(framed(frames[0]).len() >= 8);
    }
}

/// The sending side of a stream that is closing is to be closed exactly when nothing is left to
/// write on it.
pub proof fn law_closing_stream_is_done_when_all_is_sent(queue: SendQueue, addr: StreamAddr)
    requires
        queue.wf(),
        queue.senders().dom().contains(addr),
        queue.closing().contains(addr),
    ensures
        queue.done(addr) <==> outstanding(
            Sending {
                stream: queue.senders()[addr],
                queue: frame_values(queued(queue.frames(), addr)),
            },
        ).len() == 0,
{
    queue.lemma_wf();
    queue.senders()[addr].lemma_ready();
    lemma_frames_take_bytes(frame_values(queued(queue.frames(), addr)));
}

/// What frames hold.
pub open spec fn frame_values(frames: Seq<Frame>) -> Seq<FrameValue> {
    frames.map_values(|f: Frame| f.value())
}

/// Polling a stream of a [`SendQueue`] that was not cancelled is a step of the stream and its
/// queue.
pub proof fn law_polled_queue_steps(
    frames: Seq<Frame>,
    stream: FrameSendStream,
    r: Result<QueuePoll, StreamError>,
    after: FrameSendStream,
)
    requires
        stream.wf(),
        after.wf(),
        !stream.is_cancelled(),
        polls(frames, stream, false, r, after),
    ensures
        ({
            let left = if stream.ready() && frames.len() > 0 {
                frames.drop_first()
            } else {
                frames
            };
            step_leads(
                Sending { stream, queue: frame_values(frames) },
                SendStep::Polled,
                Sending { stream: after, queue: frame_values(left) },
            )
        }),
{
    if stream.ready() && frames.len() > 0 {
        assert(frame_values(frames.drop_first()) =~= frame_values(frames).drop_first());
    }
}

/// What is queued for a stream is its queue, and nothing if it has none.
pub proof fn law_queued_is_the_queue<T>(queues: Map<StreamAddr, Seq<T>>, addr: StreamAddr)
    ensures
        queues.dom().contains(addr) ==> queued(queues, addr) == queues[addr],
        !queues.dom().contains(addr) ==> queued(queues, addr).len() == 0,
        total(Map::<StreamAddr, Seq<T>>::empty()) == 0,
{
}

/// Without a stream and what is queued for it, the total is smaller by as many.
pub proof fn law_dropped_queue_is_not_counted<T>(
    queues: Map<StreamAddr, Seq<T>>,
    addr: StreamAddr,
)
    requires
        queues.dom().finite(),
    ensures
        queues.dom().contains(addr) ==> total(queues) == total(queues.remove(addr))
            + queues[addr].len(),
        !queues.dom().contains(addr) ==> total(queues) == total(queues.remove(addr)),
{
    lemma_total_insert(queues, addr, Seq::empty());
}

/// A stream that was cancelled starts no frame any more: what was queued next for it is refused,
/// and with nothing queued it is idle. A stream that has bytes left to write goes on with them.
pub proof fn law_cancelled_stream_starts_nothing(
    frames: Seq<Frame>,
    stream: FrameSendStream,
    cancelled: bool,
    r: Result<QueuePoll, StreamError>,
    after: FrameSendStream,
)
    requires
        stream.wf(),
        polls(frames, stream, cancelled, r, after),
    ensures
        after.address() == stream.address(),
        after.stream_type() == stream.stream_type(),
        after.is_cancelled() == (stream.is_cancelled() || cancelled),
        !cancelled && stream.unsent().len() > 0 ==> r == Ok::<QueuePoll, StreamError>(
            QueuePoll::Write,
        ) && after.unsent() == stream.unsent(),
        frames.len() == 0 && (cancelled || stream.unsent().len() == 0) ==> r == Ok::<
            QueuePoll,
            StreamError,
        >(QueuePoll::Idle) && after.unsent() == stream.unsent(),
        frames.len() > 0 && (cancelled || (stream.is_cancelled() && stream.unsent().len() == 0))
            ==> r == Err::<QueuePoll, StreamError>(StreamError::StreamClosed) && after.unsent()
            == stream.unsent(),
        frames.len() > 0 && !cancelled && !stream.is_cancelled() && stream.unsent().len() == 0
            ==> r == Ok::<QueuePoll, StreamError>(QueuePoll::Write) && after.unsent() == framed(
            frames[0].value(),
        ),
{
    stream.lemma_ready();
}

/// A stream that is polled starts the first queued frame once nothing is left to write, and only
/// then; what the transport takes goes from the front; what is queued comes last.
pub proof fn law_each_step_does_one_thing(before: Sending, step: SendStep, after: Sending)
    requires
        step_leads(before, step, after),
    ensures
        step is Polled && before.stream.unsent().len() == 0 && before.queue.len() > 0
            ==> after.stream.unsent() == framed(before.queue[0]) && before.queue == seq![
            before.queue[0],
        ] + after.queue,
        step is Polled && (before.stream.unsent().len() > 0 || before.queue.len() == 0)
            ==> after.stream.unsent() == before.stream.unsent() && after.queue == before.queue,
        step matches SendStep::Took(n) ==> before.stream.unsent() == before.stream.unsent().take(
            n as int,
        ) + after.stream.unsent() && after.queue == before.queue,
        step matches SendStep::Queued(frame) ==> after.stream == before.stream && after.queue
            == before.queue.push(frame),
{
    before.stream.lemma_ready();
    if step is Polled && before.stream.unsent().len() == 0 && before.queue.len() > 0 {
        assert(before.queue =~= seq![before.queue[0]] + after.queue);
    }
    if let SendStep::Took(n) = step {
        let unsent = before.stream.unsent();
        assert(unsent =~= unsent.take(n as int) + unsent.skip(n as int));
    }
}

/// Nothing is outstanding exactly if nothing is left to write and nothing is queued.
pub proof fn law_outstanding_is_what_is_left(s: Sending)
    ensures
        outstanding(s).len() == 0 <==> s.stream.unsent().len() == 0 && s.queue.len() == 0,
{
    lemma_frames_take_bytes(s.queue);
}

/// What frames hold is listed frame by frame.
pub proof fn law_frame_values_are_those_of_the_frames(frames: Seq<Frame>, i: int)
    requires
        0 <= i < frames.len(),
    ensures
        frame_values(frames).len() == frames.len(),
        frame_values(frames)[i] == frames[i].value(),
{
}

/// Only a stream that is closing, and that is still there, is ever done.
pub proof fn law_only_closing_streams_are_done(queue: SendQueue, addr: StreamAddr)
    requires
        queue.done(addr),
    ensures
        queue.closing().contains(addr),
        queue.senders().dom().contains(addr),
        queue.frames().dom().contains(addr) ==> queue.frames()[addr].len() == 0,
{
}

/// A frame that is started is not the type of the stream; as long as none is started, the type is
/// to be written or not, as before.
pub proof fn law_started_frames_follow_the_type(
    frames: Seq<Frame>,
    stream: FrameSendStream,
    cancelled: bool,
    r: Result<QueuePoll, StreamError>,
    after: FrameSendStream,
)
    requires
        stream.wf(),
        polls(frames, stream, cancelled, r, after),
    ensures
        frames.len() == 0 || (!cancelled && stream.unsent().len() > 0) ==> after.at_header()
            == stream.at_header(),
        frames.len() > 0 && !cancelled && !stream.is_cancelled() && stream.unsent().len() == 0
            ==> !after.at_header(),
{
    stream.lemma_ready();
}

/// Polling a stream touches no other: all other streams and all that is queued for them stay. Of its
/// own queue at most the first frame leaves, and only when nothing is left to write or the stream
/// was cancelled.
pub proof fn law_polling_a_queue_is_confined(
    before: SendQueue,
    addr: StreamAddr,
    cancelled: bool,
    r: Result<QueuePoll, StreamError>,
    after: SendQueue,
    other: StreamAddr,
)
    requires
        before.wf(),
        before.senders().dom().contains(addr),
        polls_stream(before, addr, cancelled, r, after),
        other != addr,
    ensures
        after.senders().dom().contains(addr),
        after.senders().dom().contains(other) == before.senders().dom().contains(other),
        after.senders()[other] == before.senders()[other],
        after.frames().dom().contains(other) == before.frames().dom().contains(other),
        after.frames()[other] == before.frames()[other],
        after.closing() == before.closing(),
        !cancelled && before.senders()[addr].unsent().len() > 0 ==> after.frames()
            == before.frames() && after.senders()[addr].unsent() == before.senders()[addr].unsent(),
        before.frames().dom().contains(addr) && before.frames()[addr].len() > 0 && (cancelled
            || before.senders()[addr].unsent().len() == 0) ==> before.frames()[addr] == seq![
            before.frames()[addr][0],
        ] + after.frames()[addr],
        before.frames().dom().contains(addr) && before.frames()[addr].len() > 0 && !cancelled
            && !before.senders()[addr].is_cancelled() && before.senders()[addr].unsent().len() == 0
            ==> after.senders()[addr].unsent() == framed(before.frames()[addr][0].value()),
{
    before.lemma_wf();
    before.senders()[addr].lemma_ready();
    if before.frames().dom().contains(addr) && before.frames()[addr].len() > 0 {
        let queue = before.frames()[addr];
        assert(queue =~= seq![queue[0]] + queue.drop_first());
    }
}

/// What the transport takes of a stream goes from the front of what it has to write, and nothing
/// else is touched. A stream whose type is not taken whole is dropped, with its queue, and no other
/// is.
pub proof fn law_taken_bytes_are_gone(
    before: SendQueue,
    addr: StreamAddr,
    n: nat,
    r: Result<(), StreamError>,
    after: SendQueue,
    other: StreamAddr,
)
    requires
        n <= before.senders()[addr].unsent().len(),
        takes_bytes(before, addr, n, r, after),
        other != addr,
    ensures
        r is Err <==> before.senders()[addr].at_header() && n != 1,
        r is Ok ==> before.senders()[addr].unsent() == before.senders()[addr].unsent().take(
            n as int,
        ) + after.senders()[addr].unsent() && after.senders().dom().contains(addr)
            && after.frames() == before.frames() && after.closing() == before.closing(),
        r matches Err(e) ==> e == StreamError::FailedToWriteHeader
            && !after.senders().dom().contains(addr) && !after.frames().dom().contains(addr),
        after.senders().dom().contains(other) == before.senders().dom().contains(other),
        after.senders()[other] == before.senders()[other],
        after.frames().dom().contains(other) == before.frames().dom().contains(other),
        after.frames()[other] == before.frames()[other],
        after.closing().contains(other) == before.closing().contains(other),
{
    let unsent = before.senders()[addr].unsent();
    assert(unsent =~= unsent.take(n as int) + unsent.skip(n as int));
    if r is Err {
        assert(after.closing().remove(addr).contains(other) == before.closing().remove(
            addr,
        ).contains(other));
    }
}

/// A stream that is dropped is gone with all that was queued for it, and no other stream is touched.
pub proof fn law_dropped_stream_takes_only_its_queue(
    before: SendQueue,
    addr: StreamAddr,
    after: SendQueue,
    other: StreamAddr,
)
    requires
        drops_stream(before, addr, after),
        other != addr,
    ensures
        !after.senders().dom().contains(addr),
        !after.frames().dom().contains(addr),
        after.senders().dom().contains(other) == before.senders().dom().contains(other),
        after.senders()[other] == before.senders()[other],
        after.frames().dom().contains(other) == before.frames().dom().contains(other),
        after.frames()[other] == before.frames()[other],
        after.closing().contains(other) == before.closing().contains(other),
{
    assert(after.closing().remove(addr).contains(other) == before.closing().remove(addr).contains(
        other,
    ));
}

} // verus!

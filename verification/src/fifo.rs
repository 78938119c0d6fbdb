//! The message buffers of nodes and channels, backed by the FIFO queue of the
//! `queues` crate.  Its `Queue<T>` pushes at the tail and removes at the head
//! of a growable `Vec`, with no bound on its size; the contracts below state
//! exactly that over the queued sequence.
use crate::rpc::Rpc;
use queues::IsQueue;
use vstd::prelude::*;

verus! {

#[verifier::external_type_specification]
#[verifier::external_body]
#[verifier::reject_recursive_types(T)]
pub struct ExQueue<T: Clone>(queues::Queue<T>);

/// A message stamped with the tick at which a channel accepted it.
pub struct TimedRpc {
    pub stamp: u64,
    pub rpc: Rpc,
}

impl Clone for TimedRpc {
    fn clone(&self) -> (r: TimedRpc)
        ensures
            r.stamp == self.stamp,
            r.rpc@ == self.rpc@,
            r.rpc.wf() == self.rpc.wf(),
    {
        TimedRpc { stamp: self.stamp, rpc: self.rpc.duplicate() }
    }
}

/// What a queue of plain messages holds, head first.
pub uninterp spec fn rpc_queue_elems(q: queues::Queue<Rpc>) -> Seq<Rpc>;

/// What a queue of stamped messages holds, head first.
pub uninterp spec fn timed_queue_elems(q: queues::Queue<TimedRpc>) -> Seq<TimedRpc>;

/// A FIFO buffer of messages.
pub struct RpcQueue {
    pub q: queues::Queue<Rpc>,
}

impl RpcQueue {
    pub open spec fn elems(&self) -> Seq<Rpc> {
        rpc_queue_elems(self.q)
    }

    /// Relies on `queues::Queue::new`: a fresh queue holds nothing.
    #[verifier::external_body]
    pub fn new() -> (r: RpcQueue)
        ensures
            rpc_queue_elems(r.q) == Seq::<Rpc>::empty(),
    {
        RpcQueue { q: queues::Queue::new() }
    }

    /// Relies on `queues::Queue::add`: appends at the tail and always succeeds.
    #[verifier::external_body]
    pub fn add(&mut self, x: Rpc)
        ensures
            rpc_queue_elems(final(self).q) == rpc_queue_elems(old(self).q).push(x),
    {
        let _ = self.q.add(x);
    }

    /// Relies on `queues::Queue::remove`: hands the head out, erring only on
    /// an empty queue.
    #[verifier::external_body]
    pub fn remove(&mut self) -> (r: Option<Rpc>)
        ensures
            rpc_queue_elems(old(self).q).len() == 0 ==> r is None && rpc_queue_elems(
                final(self).q,
            ) == rpc_queue_elems(old(self).q),
            rpc_queue_elems(old(self).q).len() > 0 ==> r == Some(
                rpc_queue_elems(old(self).q)[0],
            ) && rpc_queue_elems(final(self).q) == rpc_queue_elems(old(self).q).drop_first(),
    {
        match self.q.remove() {
            Ok(v) => Some(v),
            Err(_) => None,
        }
    }

    /// Relies on `queues::Queue::size`: the number of queued items.
    #[verifier::external_body]
    pub fn size(&self) -> (r: usize)
        ensures
            r == rpc_queue_elems(self.q).len(),
    {
        self.q.size()
    }
}

/// A FIFO buffer of stamped messages, the state of a delay channel.
pub struct TimedQueue {
    pub q: queues::Queue<TimedRpc>,
}

impl TimedQueue {
    pub open spec fn elems(&self) -> Seq<TimedRpc> {
        timed_queue_elems(self.q)
    }

    /// Relies on `queues::Queue::new`: a fresh queue holds nothing.
    #[verifier::external_body]
    pub fn new() -> (r: TimedQueue)
        ensures
            timed_queue_elems(r.q) == Seq::<TimedRpc>::empty(),
    {
        TimedQueue { q: queues::Queue::new() }
    }

    /// Relies on `queues::Queue::add`: appends at the tail and always succeeds.
    #[verifier::external_body]
    pub fn add(&mut self, x: TimedRpc)
        ensures
            timed_queue_elems(final(self).q) == timed_queue_elems(old(self).q).push(x),
    {
        let _ = self.q.add(x);
    }

    /// Relies on `queues::Queue::remove`: hands the head out, erring only on
    /// an empty queue.
    #[verifier::external_body]
    pub fn remove(&mut self) -> (r: Option<TimedRpc>)
        ensures
            timed_queue_elems(old(self).q).len() == 0 ==> r is None && timed_queue_elems(
                final(self).q,
            ) == timed_queue_elems(old(self).q),
            timed_queue_elems(old(self).q).len() > 0 ==> r == Some(
                timed_queue_elems(old(self).q)[0],
            ) && timed_queue_elems(final(self).q) == timed_queue_elems(old(self).q).drop_first(),
    {
        match self.q.remove() {
            Ok(v) => Some(v),
            Err(_) => None,
        }
    }

    /// Relies on `queues::Queue::peek`: a copy of the head, of which only the
    /// tick stamp is handed on.
    #[verifier::external_body]
    pub fn head_stamp(&self) -> (r: Option<u64>)
        ensures
            r is None <==> timed_queue_elems(self.q).len() == 0,
            timed_queue_elems(self.q).len() > 0 ==> r == Some(timed_queue_elems(self.q)[0].stamp),
    {
        match self.q.peek() {
            Ok(t) => Some(t.stamp),
            Err(_) => None,
        }
    }

    /// Relies on `queues::Queue::size`: the number of queued items.
    #[verifier::external_body]
    pub fn size(&self) -> (r: usize)
        ensures
            r == timed_queue_elems(self.q).len(),
    {
        self.q.size()
    }
}

} // verus!

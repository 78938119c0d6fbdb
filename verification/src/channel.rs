//! The delayed link between two elements: a FIFO of stamped messages that
//! releases a message exactly when its enqueue tick plus the link's delay is
//! the current tick.
use crate::error::SimError;
use crate::fifo::{TimedQueue, TimedRpc};
use crate::rpc::Rpc;
use vstd::prelude::*;

verus! {

/// Enqueue stamps never decrease along the queue; a tick-by-tick driver keeps
/// them so because it only enqueues at the current tick.
pub open spec fn stamps_sorted(q: Seq<TimedRpc>) -> bool {
    forall|i: int, j: int| 0 <= i <= j < q.len() ==> #[trigger] q[i].stamp <= #[trigger] q[j].stamp
}

pub open spec fn all_queued_wf(q: Seq<TimedRpc>) -> bool {
    forall|i: int| 0 <= i < q.len() ==> (#[trigger] q[i].rpc).wf()
}

/// A point-to-point link with a fixed propagation delay.  A bidirectional
/// edge is two independent channels, one per direction.
pub struct Channel {
    pub queue: TimedQueue,
    pub delay: u64,
    pub id: String,
    pub left: String,
    pub right: String,
    pub neighbors: Vec<String>,
}

impl Channel {
    pub open spec fn wf(&self) -> bool {
        all_queued_wf(self.queue.elems())
    }

    /// The two endpoint identities and the delay are fixed at creation; the
    /// channel's own identity is `left_right`.
    pub fn new(left: &str, right: &str, delay: u64) -> (r: Channel)
        ensures
            r.wf(),
            r.queue.elems().len() == 0,
            r.delay == delay,
            r.id@ == left@ + "_"@ + right@,
            r.left@ == left@,
            r.right@ == right@,
            r.neighbors@.len() == 2,
            r.neighbors@[0]@ == left@,
            r.neighbors@[1]@ == right@,
    {
        let mut id = left.to_owned();
        id.append("_");
        id.append(right);
        let mut neighbors: Vec<String> = Vec::new();
        neighbors.push(left.to_owned());
        neighbors.push(right.to_owned());
        Channel {
            queue: TimedQueue::new(),
            delay,
            id,
            left: left.to_owned(),
            right: right.to_owned(),
            neighbors,
        }
    }

    /// Accepts a message at the current tick: it joins the tail of the queue
    /// stamped with that tick.  A driver that never moves backwards keeps the
    /// stamps in order.
    pub fn enqueue(&mut self, x: Rpc, now: u64)
        requires
            old(self).wf(),
            x.wf(),
        ensures
            final(self).wf(),
            final(self).queue.elems() == old(self).queue.elems().push(
                TimedRpc { stamp: now, rpc: x },
            ),
            *final(self) == (Channel { queue: final(self).queue, ..*old(self) }),
            (stamps_sorted(old(self).queue.elems()) && (forall|i: int|
                0 <= i < old(self).queue.elems().len() ==> #[trigger] old(
                    self,
                ).queue.elems()[i].stamp <= now)) ==> stamps_sorted(final(self).queue.elems()),
    {
        self.queue.add(TimedRpc { stamp: now, rpc: x });
    }

    /// Releases, in arrival order, the run of head messages whose enqueue
    /// tick plus the delay is exactly `now`: a message is released at its due
    /// tick and at no other.  Finding a head message already past its due
    /// tick means the driver skipped a tick, which is a fatal fault; with
    /// stamps in order, every message kept is due strictly later.
    pub fn dequeue(&mut self, now: u64) -> (r: Result<Vec<Rpc>, SimError>)
        requires
            old(self).wf(),
        ensures
            final(self).wf(),
            *final(self) == (Channel { queue: final(self).queue, ..*old(self) }),
            old(self).queue.elems().len() == 0 ==> r is Ok && r->Ok_0@.len() == 0 && *final(self)
                == *old(self),
            r is Err ==> r->Err_0 is SkippedTick && (exists|i: int|
                0 <= i < old(self).queue.elems().len() && #[trigger] old(
                    self,
                ).queue.elems()[i].stamp + old(self).delay < now) && (exists|m: int|
                0 <= m <= old(self).queue.elems().len() && final(self).queue.elems() == old(
                    self,
                ).queue.elems().skip(m)),
            (stamps_sorted(old(self).queue.elems()) && (forall|i: int|
                0 <= i < old(self).queue.elems().len() ==> #[trigger] old(
                    self,
                ).queue.elems()[i].stamp + old(self).delay >= now)) ==> r is Ok,
            r is Ok ==> {
                &&& r->Ok_0@.len() <= old(self).queue.elems().len()
                &&& forall|i: int|
                    0 <= i < r->Ok_0@.len() ==> #[trigger] r->Ok_0@[i] == old(
                        self,
                    ).queue.elems()[i].rpc && old(self).queue.elems()[i].stamp + old(self).delay
                        == now
                &&& (r->Ok_0@.len() < old(self).queue.elems().len() ==> old(
                    self,
                ).queue.elems()[r->Ok_0@.len() as int].stamp + old(self).delay > now)
                &&& (stamps_sorted(old(self).queue.elems()) ==> forall|i: int|
                    r->Ok_0@.len() <= i < old(self).queue.elems().len() ==> #[trigger] old(
                        self,
                    ).queue.elems()[i].stamp + old(self).delay > now)
                &&& final(self).queue.elems() == old(self).queue.elems().skip(
                    r->Ok_0@.len() as int,
                )
                &&& forall|i: int| 0 <= i < r->Ok_0@.len() ==> (#[trigger] r->Ok_0@[i]).wf()
            },
    {
        let ghost q0 = self.queue.elems();
        let delay = self.delay;
        let mut out: Vec<Rpc> = Vec::new();
        let mut go = true;
        while go
            invariant
                self.wf(),
                self.delay == delay,
                delay == old(self).delay,
                self.id == old(self).id,
                self.left == old(self).left,
                self.right == old(self).right,
                self.neighbors == old(self).neighbors,
                q0 == old(self).queue.elems(),
                out@.len() <= q0.len(),
                self.queue.elems() == q0.skip(out@.len() as int),
                forall|i: int|
                    0 <= i < out@.len() ==> #[trigger] out@[i] == q0[i].rpc && q0[i].stamp + delay
                        == now,
                forall|i: int| 0 <= i < out@.len() ==> (#[trigger] out@[i]).wf(),
                !go ==> (out@.len() == q0.len() || q0[out@.len() as int].stamp + delay > now),
                out@.len() == 0 ==> *self == *old(self),
            decreases q0.len() - out@.len() + (if go {
                1int
            } else {
                0int
            }),
        {
            match self.queue.head_stamp() {
                None => {
                    go = false;
                },
                Some(stamp) => {
                    let due = match stamp.checked_add(delay) {
                        Some(d) => d,
                        None => {
                            // The sum exceeds every representable tick, so the
                            // head is not due now.
                            assert(q0[out@.len() as int].stamp + delay > now);
                            go = false;
                            continue ;
                        },
                    };
                    if due == now {
                        assert(q0[out@.len() as int].stamp + delay == now);
                        let head = self.queue.remove();
                        match head {
                            Some(t) => {
                                assert(t == q0[out@.len() as int]);
                                assert(q0.skip(out@.len() as int).drop_first() =~= q0.skip(
                                    out@.len() as int + 1,
                                ));
                                out.push(t.rpc);
                            },
                            None => {
                                // unreachable: head_stamp said the queue is nonempty
                                assert(false);
                            },
                        }
                    } else if due < now {
                        // The head message missed its release tick: the
                        // driver skipped a tick, which must never happen.
                        assert(q0[out@.len() as int].stamp + delay < now);
                        proof {
                            let m = out@.len() as int;
                            assert(0 <= m <= q0.len() && self.queue.elems() == q0.skip(m));
                        }
                        return Err(SimError::SkippedTick { channel: self.id.clone() });
                    } else {
                        go = false;
                    }
                },
            }
        }
        proof {
            if stamps_sorted(q0) {
                assert forall|i: int|
                    out@.len() <= i < q0.len() implies #[trigger] q0[i].stamp + delay > now by {
                    let k = out@.len() as int;
                    assert(q0[k].stamp + delay > now);
                    assert(q0[k].stamp <= q0[i].stamp);
                }
            }
        }
        Ok(out)
    }

    /// Wires one more endpoint.  A link joins at most two elements, and a
    /// freshly built link already knows both of its ends, so this is only
    /// for a link built with fewer.
    pub fn add_connection(&mut self, neighbor: String)
        requires
            old(self).neighbors@.len() < 2,
        ensures
            final(self).neighbors@ == old(self).neighbors@.push(neighbor),
            *final(self) == (Channel { neighbors: final(self).neighbors, ..*old(self) }),
    {
        self.neighbors.push(neighbor);
    }

    /// How many messages are in flight on this link.
    pub fn len(&self) -> (r: usize)
        ensures
            r == self.queue.elems().len(),
    {
        self.queue.size()
    }
}

} // verus!

//! The single-worker queue of thumbnail requests of the compact result
//! list: requests are served first in, first out; a request that its row
//! cancelled is skipped, and dropped as soon as another request arrives.

use vstd::prelude::*;
use crate::thumbnails::{copy_key, key_view, ThumbnailKey};

verus! {

/// A waiting request: what to load, the ticket its row holds, and whether
/// the row cancelled it.
#[derive(Debug)]
pub struct QueuedVisual {
    pub key: ThumbnailKey,
    pub ticket: u64,
    pub cancelled: bool,
}

/// A waiting request as plain values.
pub type QueuedVisualView = ((Seq<char>, u32, Option<u64>, Option<i64>), u64, bool);

pub open spec fn queued_visual_view(q: QueuedVisual) -> QueuedVisualView {
    (key_view(q.key), q.ticket, q.cancelled)
}

/// The requests that were not cancelled, in order.
pub open spec fn live_requests(q: Seq<QueuedVisualView>) -> Seq<QueuedVisualView>
    decreases q.len(),
{
    if q.len() == 0 {
        q
    } else if q.last().2 {
        live_requests(q.drop_last())
    } else {
        live_requests(q.drop_last()).push(q.last())
    }
}

/// The position of the first request that was not cancelled (the length
/// when there is none).
pub open spec fn first_live(q: Seq<QueuedVisualView>) -> int
    decreases q.len(),
{
    if q.len() == 0 {
        0
    } else if !q[0].2 {
        0
    } else {
        1 + first_live(q.drop_first())
    }
}

/// The request served next was not cancelled, and every request before it
/// was: no cancelled request is ever served, and no live one is skipped.
pub proof fn law_cancelled_requests_are_skipped(q: Seq<QueuedVisualView>)
    ensures
        0 <= first_live(q) <= q.len(),
        first_live(q) < q.len() ==> !q[first_live(q)].2,
        forall|i: int| 0 <= i < first_live(q) ==> #[trigger] q[i].2,
    decreases q.len(),
{
    if q.len() > 0 && q[0].2 {
        law_cancelled_requests_are_skipped(q.drop_first());
        assert forall|i: int| 0 <= i < first_live(q) implies #[trigger] q[i].2 by {
            if i > 0 {
                assert(q[i] == q.drop_first()[i - 1]);
            }
        }
    }
}

/// The ticket after `n`, wrapping at the end of `u64`.
pub open spec fn next_ticket(n: u64) -> u64 {
    if n == u64::MAX {
        0
    } else {
        (n + 1) as u64
    }
}

/// The queue and whether its worker runs.
pub struct ThumbnailQueue {
    pending: Vec<QueuedVisual>,
    running: bool,
    next: u64,
}

impl ThumbnailQueue {
    pub closed spec fn queue(&self) -> Seq<QueuedVisualView> {
        self.pending@.map_values(|q: QueuedVisual| queued_visual_view(q))
    }

    pub closed spec fn is_running(&self) -> bool {
        self.running
    }

    /// The ticket the next request gets.
    pub closed spec fn ticket_counter(&self) -> u64 {
        self.next
    }

    pub fn new() -> (q: ThumbnailQueue)
        ensures
            q.queue().len() == 0,
            !q.is_running(),
            q.ticket_counter() == 0,
    {
        let q = ThumbnailQueue { pending: Vec::new(), running: false, next: 0 };
        proof {
            assert(q.queue() =~= Seq::<QueuedVisualView>::empty());
        }
        q
    }

    /// How many requests wait.
    pub fn pending_len(&self) -> (n: usize)
        ensures
            n == self.queue().len(),
    {
        self.pending.len()
    }

    /// Queues a request after dropping the cancelled ones; gives its ticket
    /// and whether a worker is to be started (when none runs).
    pub fn enqueue(&mut self, key: ThumbnailKey) -> (r: (u64, bool))
        ensures
            r.0 == old(self).ticket_counter(),
            r.1 == !old(self).is_running(),
            final(self).is_running(),
            final(self).ticket_counter() == next_ticket(old(self).ticket_counter()),
            final(self).queue() == live_requests(old(self).queue()).push((key_view(key), r.0, false)),
    {
        let ghost q0 = self.queue();
        let mut kept: Vec<QueuedVisual> = Vec::new();
        let mut i: usize = 0;
        while i < self.pending.len()
            invariant
                0 <= i <= self.pending@.len(),
                q0 == self.pending@.map_values(|q: QueuedVisual| queued_visual_view(q)),
                kept@.map_values(|q: QueuedVisual| queued_visual_view(q)) == live_requests(q0.take(i as int)),
            decreases self.pending@.len() - i,
        {
            let ghost before = kept@.map_values(|q: QueuedVisual| queued_visual_view(q));
            proof {
                assert(q0.take(i + 1).drop_last() =~= q0.take(i as int));
                assert(q0.take(i + 1).last() == queued_visual_view(self.pending@[i as int]));
            }
            if !self.pending[i].cancelled {
                let copy = QueuedVisual {
                    key: copy_key(&self.pending[i].key),
                    ticket: self.pending[i].ticket,
                    cancelled: false,
                };
                kept.push(copy);
                proof {
                    assert(kept@.map_values(|q: QueuedVisual| queued_visual_view(q)) =~= before.push(
                        queued_visual_view(self.pending@[i as int]),
                    ));
                }
            }
            i = i + 1;
        }
        proof {
            assert(q0.take(i as int) =~= q0);
        }
        let ticket = self.next;
        self.next = if self.next == u64::MAX {
            0
        } else {
            self.next + 1
        };
        let ghost live = kept@.map_values(|q: QueuedVisual| queued_visual_view(q));
        let entry = QueuedVisual { key, ticket, cancelled: false };
        let ghost entry_view = queued_visual_view(entry);
        kept.push(entry);
        self.pending = kept;
        proof {
            assert(self.queue() =~= live.push(entry_view));
        }
        let start = !self.running;
        self.running = true;
        (ticket, start)
    }

    /// The row holding a ticket no longer wants its thumbnail.
    pub fn cancel(&mut self, ticket: u64)
        ensures
            final(self).queue().len() == old(self).queue().len(),
            forall|i: int|
                0 <= i < old(self).queue().len() ==> #[trigger] final(self).queue()[i] == (
                    old(self).queue()[i].0,
                    old(self).queue()[i].1,
                    old(self).queue()[i].2 || old(self).queue()[i].1 == ticket,
                ),
            final(self).is_running() == old(self).is_running(),
            final(self).ticket_counter() == old(self).ticket_counter(),
    {
        let ghost q0 = self.queue();
        let ghost p0 = self.pending@;
        let mut i: usize = 0;
        while i < self.pending.len()
            invariant
                0 <= i <= self.pending@.len(),
                self.pending@.len() == p0.len(),
                q0 == p0.map_values(|q: QueuedVisual| queued_visual_view(q)),
                forall|k: int|
                    0 <= k < i ==> #[trigger] queued_visual_view(self.pending@[k]) == (
                        q0[k].0,
                        q0[k].1,
                        q0[k].2 || q0[k].1 == ticket,
                    ),
                forall|k: int| i <= k < p0.len() ==> #[trigger] self.pending@[k] == p0[k],
                self.running == old(self).running,
                self.next == old(self).next,
            decreases self.pending@.len() - i,
        {
            proof {
                assert(q0[i as int] == queued_visual_view(p0[i as int]));
            }
            if self.pending[i].ticket == ticket {
                let ghost before = self.pending@;
                let e = self.pending.remove(i);
                let marked = QueuedVisual { key: e.key, ticket: e.ticket, cancelled: true };
                self.pending.insert(i, marked);
                proof {
                    assert(self.pending@ =~= before.update(i as int, marked));
                }
            }
            i = i + 1;
        }
        proof {
            assert forall|k: int| 0 <= k < q0.len() implies #[trigger] self.queue()[k] == (
                q0[k].0,
                q0[k].1,
                q0[k].2 || q0[k].1 == ticket,
            ) by {
                assert(self.queue()[k] == queued_visual_view(self.pending@[k]));
            }
        }
    }

    /// The first request that was not cancelled, taken from the queue with
    /// the cancelled ones before it; when none is left the worker stops.
    pub fn next_request(&mut self) -> (r: Option<QueuedVisual>)
        ensures
            ({
                let q = old(self).queue();
                let f = first_live(q);
                if f < q.len() {
                    &&& r matches Some(v) && queued_visual_view(v) == q[f]
                    &&& final(self).queue() == q.skip(f + 1)
                    &&& final(self).is_running() == old(self).is_running()
                } else {
                    &&& r is None
                    &&& final(self).queue().len() == 0
                    &&& !final(self).is_running()
                }
            }),
            final(self).ticket_counter() == old(self).ticket_counter(),
    {
        let ghost q0 = self.queue();
        proof {
            law_cancelled_requests_are_skipped(q0);
            assert(q0.len() == self.pending@.len());
        }
        let n = self.pending.len();
        let mut dropped: usize = 0;
        while self.pending.len() > 0 && self.pending[0].cancelled
            invariant
                0 <= dropped <= q0.len(),
                q0.len() == n,
                dropped <= first_live(q0),
                self.pending@.len() == q0.len() - dropped,
                forall|k: int|
                    0 <= k < self.pending@.len() ==> #[trigger] queued_visual_view(self.pending@[k]) == q0[dropped
                        + k],
                forall|i: int| 0 <= i < first_live(q0) ==> #[trigger] q0[i].2,
                first_live(q0) <= q0.len(),
                first_live(q0) < q0.len() ==> !q0[first_live(q0)].2,
                self.running == old(self).running,
                self.next == old(self).next,
            decreases self.pending@.len(),
        {
            proof {
                assert(queued_visual_view(self.pending@[0]) == q0[dropped as int]);
                assert(q0[dropped as int].2);
            }
            let ghost before = self.pending@;
            self.pending.remove(0);
            proof {
                assert(self.pending@ =~= before.subrange(1, before.len() as int));
                assert forall|k: int| 0 <= k < self.pending@.len() implies #[trigger] queued_visual_view(
                    self.pending@[k],
                ) == q0[dropped + 1 + k] by {
                    assert(self.pending@[k] == before[k + 1]);
                }
            }
            dropped = dropped + 1;
        }
        if self.pending.len() == 0 {
            self.running = false;
            proof {
                assert(self.queue().len() == 0);
            }
            return None;
        }
        proof {
            assert(queued_visual_view(self.pending@[0]) == q0[dropped as int]);
            assert(!q0[dropped as int].2);
            assert(dropped == first_live(q0));
        }
        let ghost before = self.pending@;
        let first = self.pending.remove(0);
        proof {
            assert(self.pending@ =~= before.subrange(1, before.len() as int));
            assert forall|k: int| 0 <= k < self.queue().len() implies #[trigger] self.queue()[k] == q0.skip(
                dropped + 1,
            )[k] by {
                assert(self.queue()[k] == queued_visual_view(self.pending@[k]));
                assert(self.pending@[k] == before[k + 1]);
            }
            assert(self.queue() =~= q0.skip(dropped + 1));
        }
        Some(first)
    }
}

} // verus!

//! Single-slot hand-off queues.
//!
//! Each direction of the bridge hands chunks from its producer to its
//! consumer through a mailbox holding at most one pending chunk. A send
//! against an occupied slot is refused — the producer must suspend and
//! retry once the pending chunk has been consumed — which bounds memory to
//! one chunk per direction and provides backpressure. Ghost histories of
//! everything ever accepted and everything ever delivered let the
//! order-preservation law be stated and proved.

use vstd::prelude::*;

verus! {

use crate::chunk::Chunk;

/// What becomes of an offered chunk: accepted into a free slot, or the
/// slot was occupied and the payload stays with the producer.
pub open spec fn spec_offer(slot: Option<Seq<u8>>, b: Seq<u8>) -> (Option<Seq<u8>>, bool) {
    match slot {
        Option::None => (Option::Some(b), true),
        Option::Some(p) => (Option::Some(p), false),
    }
}

/// How many offers of `bs`, made in order with no intervening receive,
/// a queue whose slot starts as `slot` accepts.
pub open spec fn accepted_in_burst(slot: Option<Seq<u8>>, bs: Seq<Seq<u8>>) -> nat
    decreases bs.len(),
{
    if bs.len() == 0 {
        0
    } else {
        let stepped = spec_offer(slot, bs[0]);
        (if stepped.1 {
            1nat
        } else {
            0nat
        }) + accepted_in_burst(stepped.0, bs.drop_first())
    }
}

/// A single-slot mailbox carrying chunks from one producer to one
/// consumer. `sent` and `delivered` record, as ghost history, every
/// payload ever accepted and every payload ever handed out.
pub struct SlotQueue {
    slot: Chunk,
    occupied: bool,
    sent: Ghost<Seq<Seq<u8>>>,
    delivered: Ghost<Seq<Seq<u8>>>,
}

impl SlotQueue {
    /// The payload pending in the slot, if any.
    pub closed spec fn pending(self) -> Option<Seq<u8>> {
        if self.occupied {
            Option::Some(self.slot.bytes())
        } else {
            Option::None
        }
    }

    /// Every payload ever accepted, oldest first.
    pub closed spec fn sent(self) -> Seq<Seq<u8>> {
        self.sent@
    }

    /// Every payload ever delivered to the consumer, oldest first.
    pub closed spec fn delivered(self) -> Seq<Seq<u8>> {
        self.delivered@
    }

    /// How many chunks are pending: never more than one.
    pub open spec fn depth(self) -> nat {
        if self.pending() is Some {
            1nat
        } else {
            0nat
        }
    }

    /// The queue invariant: the pending chunk is well formed, and the
    /// accepted history is exactly the delivered history followed by
    /// whatever is still pending.
    pub closed spec fn wf(self) -> bool {
        &&& self.slot.wf()
        &&& if self.occupied {
            self.sent@ == self.delivered@.push(self.slot.bytes())
        } else {
            self.sent@ == self.delivered@
        }
    }

    /// A fresh, empty queue with empty histories.
    pub fn new() -> (q: SlotQueue)
        ensures
            q.wf(),
            q.pending() is None,
            q.sent() == Seq::<Seq<u8>>::empty(),
            q.delivered() == Seq::<Seq<u8>>::empty(),
    {
        SlotQueue {
            slot: Chunk::empty(),
            occupied: false,
            sent: Ghost(Seq::empty()),
            delivered: Ghost(Seq::empty()),
        }
    }

    /// Offers a chunk to the queue. A free slot accepts it; an occupied
    /// slot refuses and returns the chunk to the producer unchanged, who
    /// must suspend and offer it again after the pending chunk has been
    /// consumed.
    pub fn try_send(&mut self, c: Chunk) -> (r: Result<(), Chunk>)
        requires
            old(self).wf(),
            c.wf(),
        ensures
            final(self).wf(),
            (final(self).pending(), r is Ok) == spec_offer(old(self).pending(), c.bytes()),
            old(self).pending() is None ==> {
                &&& r is Ok
                &&& final(self).pending() == Option::Some(c.bytes())
                &&& final(self).sent() == old(self).sent().push(c.bytes())
                &&& final(self).delivered() == old(self).delivered()
            },
            old(self).pending() is Some ==> {
                &&& (r matches Err(back) && back == c)
                &&& final(self).pending() == old(self).pending()
                &&& final(self).sent() == old(self).sent()
                &&& final(self).delivered() == old(self).delivered()
            },
    {
        if self.occupied {
            Err(c)
        } else {
            let ghost payload = c.bytes();
            self.slot = c;
            self.occupied = true;
            self.sent = Ghost(self.sent@.push(payload));
            Ok(())
        }
    }

    /// Takes the pending chunk, if any. An empty slot yields nothing —
    /// the consumer must suspend until a chunk has been offered.
    pub fn try_recv(&mut self) -> (r: Option<Chunk>)
        requires
            old(self).wf(),
        ensures
            final(self).wf(),
            old(self).pending() is None ==> {
                &&& r is None
                &&& final(self).pending() == old(self).pending()
                &&& final(self).sent() == old(self).sent()
                &&& final(self).delivered() == old(self).delivered()
            },
            old(self).pending() matches Some(b) ==> {
                &&& (r matches Some(c) && c.bytes() == b && c.wf())
                &&& final(self).pending() is None
                &&& final(self).sent() == old(self).sent()
                &&& final(self).delivered() == old(self).delivered().push(b)
            },
    {
        if self.occupied {
            let ghost payload = self.slot.bytes();
            let c = self.slot.take();
            self.occupied = false;
            self.delivered = Ghost(self.delivered@.push(payload));
            Some(c)
        } else {
            None
        }
    }
}

/// A burst of offers against a slot that stays occupied — the consumer is
/// paused — accepts nothing.
proof fn lemma_burst_against_occupied(p: Seq<u8>, bs: Seq<Seq<u8>>)
    ensures
        accepted_in_burst(Option::Some(p), bs) == 0,
    decreases bs.len(),
{
    if bs.len() > 0 {
        lemma_burst_against_occupied(p, bs.drop_first());
    }
}

/// Backpressure: however many chunks a producer offers while the consumer
/// is paused, an empty queue accepts exactly the first and refuses the
/// rest; a queue whose slot is already occupied accepts none; and once the
/// pending chunk is consumed (the slot is free again) the next offer is
/// accepted. Queue depth never exceeds one.
pub proof fn lemma_backpressure(bs: Seq<Seq<u8>>)
    requires
        bs.len() > 0,
    ensures
        accepted_in_burst(Option::None, bs) == 1,
        forall|p: Seq<u8>| #[trigger] accepted_in_burst(Option::Some(p), bs) == 0,
        forall|b: Seq<u8>| (#[trigger] spec_offer(Option::None, b)).1,
        forall|q: SlotQueue| #[trigger] q.depth() <= 1,
{
    lemma_burst_against_occupied(bs[0], bs.drop_first());
    assert forall|p: Seq<u8>| #[trigger] accepted_in_burst(Option::Some(p), bs) == 0 by {
        lemma_burst_against_occupied(p, bs);
    }
}

/// Order preservation: under the queue invariant the delivered history is
/// always a prefix of the accepted history — the consumer observes the
/// producer's chunks in order, with no loss and no duplication — and the
/// two histories differ by exactly the chunks still pending. A drained
/// queue has delivered everything it accepted.
pub proof fn lemma_order_preservation(q: SlotQueue)
    requires
        q.wf(),
    ensures
        q.delivered() == q.sent().take(q.delivered().len() as int),
        q.sent().len() == q.delivered().len() + q.depth(),
        q.pending() is None ==> q.delivered() == q.sent(),
{
    if q.pending() is Some {
        assert(q.sent().take(q.delivered().len() as int) =~= q.delivered());
    } else {
        assert(q.sent().take(q.delivered().len() as int) =~= q.delivered());
    }
}

} // verus!

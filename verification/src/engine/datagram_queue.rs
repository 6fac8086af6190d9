//! Bounded queue for outbound unreliable datagrams (media objects).
//!
//! Video/audio objects map to QUIC datagrams; the queue decouples capture and
//! packetizer pacing from `send_datagram` backpressure. Callers that share a
//! queue between threads hold it behind a lock.
use std::collections::VecDeque;
use vstd::prelude::*;

verus! {

broadcast use vstd::std_specs::vecdeque::group_vec_dequeue_axioms;

/// High-priority unreliable payloads waiting for `Connection::send_datagram`,
/// first in, first out, never more than the capacity.
pub struct DatagramQueue {
    max_items: usize,
    inner: VecDeque<Vec<u8>>,
}

/// The queue after offering `payload` to a queue holding `items` with room for
/// `cap`: accepted at the back when there is room, else refused.
pub open spec fn queue_push(items: Seq<Seq<u8>>, cap: nat, payload: Seq<u8>) -> (Seq<Seq<u8>>, bool) {
    if items.len() < cap {
        (items.push(payload), true)
    } else {
        (items, false)
    }
}

/// The queue after taking from a queue holding `items`, with what was taken.
pub open spec fn queue_pop(items: Seq<Seq<u8>>) -> (Seq<Seq<u8>>, Option<Seq<u8>>) {
    if items.len() == 0 {
        (items, None)
    } else {
        (items.drop_first(), Some(items[0]))
    }
}

/// Offers each payload of `payloads` in turn.
pub open spec fn queue_push_all(items: Seq<Seq<u8>>, cap: nat, payloads: Seq<Seq<u8>>) -> Seq<
    Seq<u8>,
>
    decreases payloads.len(),
{
    if payloads.len() == 0 {
        items
    } else {
        queue_push_all(queue_push(items, cap, payloads[0]).0, cap, payloads.drop_first())
    }
}

/// Takes `n` times and lists what came out.
pub open spec fn queue_pop_n(items: Seq<Seq<u8>>, n: nat) -> Seq<Seq<u8>>
    decreases n,
{
    if n == 0 {
        Seq::empty()
    } else {
        match queue_pop(items).1 {
            Some(p) => seq![p] + queue_pop_n(queue_pop(items).0, (n - 1) as nat),
            None => Seq::empty(),
        }
    }
}

/// Payloads leave in the order they were accepted: offering up to `cap`
/// payloads to an empty queue and then taking as many gives them back in order.
pub proof fn lemma_fifo(cap: nat, payloads: Seq<Seq<u8>>)
    requires
        payloads.len() <= cap,
    ensures
        queue_pop_n(queue_push_all(Seq::empty(), cap, payloads), payloads.len()) == payloads,
{
    lemma_push_all_fits(Seq::empty(), cap, payloads);
    assert(Seq::<Seq<u8>>::empty() + payloads =~= payloads);
    lemma_pop_n_all(payloads);
}

proof fn lemma_push_all_fits(items: Seq<Seq<u8>>, cap: nat, payloads: Seq<Seq<u8>>)
    requires
        items.len() + payloads.len() <= cap,
    ensures
        queue_push_all(items, cap, payloads) == items + payloads,
    decreases payloads.len(),
{
    if payloads.len() > 0 {
        lemma_push_all_fits(items.push(payloads[0]), cap, payloads.drop_first());
        assert(items.push(payloads[0]) + payloads.drop_first() =~= items + payloads);
    } else {
        assert(items + payloads =~= items);
    }
}

proof fn lemma_pop_n_all(items: Seq<Seq<u8>>)
    ensures
        queue_pop_n(items, items.len()) == items,
    decreases items.len(),
{
    if items.len() > 0 {
        lemma_pop_n_all(items.drop_first());
        assert(seq![items[0]] + items.drop_first() =~= items);
    }
}

/// A queue never holds more than its capacity, whatever is offered.
pub proof fn lemma_bounded(items: Seq<Seq<u8>>, cap: nat, payloads: Seq<Seq<u8>>)
    requires
        items.len() <= cap,
    ensures
        queue_push_all(items, cap, payloads).len() <= cap,
    decreases payloads.len(),
{
    if payloads.len() > 0 {
        lemma_bounded(queue_push(items, cap, payloads[0]).0, cap, payloads.drop_first());
    }
}

/// A refused offer changes nothing, and only a full queue refuses: an offer
/// to a queue with room puts the payload at the back and keeps the rest.
pub proof fn lemma_push_refused_unchanged(items: Seq<Seq<u8>>, cap: nat, payload: Seq<u8>)
    ensures
        queue_push(items, cap, payload).1 <==> items.len() < cap,
        !queue_push(items, cap, payload).1 ==> queue_push(items, cap, payload).0 == items,
        queue_push(items, cap, payload).1 ==> queue_push(items, cap, payload).0 == items.push(
            payload,
        ),
{
}

/// One call on a queue: offering a payload, or taking one.
pub enum QueueCall {
    Push(Seq<u8>),
    Pop,
}

/// The queue after `calls`, starting from `items` with room for `cap`.
pub open spec fn queue_after(items: Seq<Seq<u8>>, cap: nat, calls: Seq<QueueCall>) -> Seq<Seq<u8>>
    decreases calls.len(),
{
    if calls.len() == 0 {
        items
    } else {
        let next = match calls[0] {
            QueueCall::Push(p) => queue_push(items, cap, p).0,
            QueueCall::Pop => queue_pop(items).0,
        };
        queue_after(next, cap, calls.drop_first())
    }
}

/// How many pushes among `calls` are accepted.
pub open spec fn accepted_pushes(items: Seq<Seq<u8>>, cap: nat, calls: Seq<QueueCall>) -> nat
    decreases calls.len(),
{
    if calls.len() == 0 {
        0
    } else {
        match calls[0] {
            QueueCall::Push(p) => (if queue_push(items, cap, p).1 {
                1nat
            } else {
                0nat
            }) + accepted_pushes(queue_push(items, cap, p).0, cap, calls.drop_first()),
            QueueCall::Pop => accepted_pushes(queue_pop(items).0, cap, calls.drop_first()),
        }
    }
}

/// How many pops among `calls` take a payload.
pub open spec fn successful_pops(items: Seq<Seq<u8>>, cap: nat, calls: Seq<QueueCall>) -> nat
    decreases calls.len(),
{
    if calls.len() == 0 {
        0
    } else {
        match calls[0] {
            QueueCall::Push(p) => successful_pops(queue_push(items, cap, p).0, cap, calls.drop_first()),
            QueueCall::Pop => (if queue_pop(items).1 is Some {
                1nat
            } else {
                0nat
            }) + successful_pops(queue_pop(items).0, cap, calls.drop_first()),
        }
    }
}

/// After any calls on a queue, it holds what it held, plus the accepted
/// pushes, minus the pops that took a payload, and never more than its room.
pub proof fn lemma_queue_len(items: Seq<Seq<u8>>, cap: nat, calls: Seq<QueueCall>)
    requires
        items.len() <= cap,
    ensures
        queue_after(items, cap, calls).len() == items.len() + accepted_pushes(items, cap, calls)
            - successful_pops(items, cap, calls),
        queue_after(items, cap, calls).len() <= cap,
    decreases calls.len(),
{
    if calls.len() > 0 {
        match calls[0] {
            QueueCall::Push(p) => lemma_queue_len(queue_push(items, cap, p).0, cap, calls.drop_first()),
            QueueCall::Pop => lemma_queue_len(queue_pop(items).0, cap, calls.drop_first()),
        }
    }
}

impl View for DatagramQueue {
    type V = Seq<Seq<u8>>;

    /// The payloads waiting, oldest first.
    closed spec fn view(&self) -> Seq<Seq<u8>> {
        self.inner@.map_values(|v: Vec<u8>| v@)
    }
}

impl DatagramQueue {
    /// How many payloads the queue holds at most.
    pub closed spec fn capacity(&self) -> nat {
        self.max_items as nat
    }

    /// Room for at least one payload, and never more payloads than room.
    #[verifier::type_invariant]
    spec fn within_capacity(&self) -> bool {
        &&& self.max_items >= 1
        &&& self.inner@.len() <= self.max_items
    }

    /// An empty queue for `max_items` payloads (at least one).
    pub fn new(max_items: usize) -> (q: Self)
        ensures
            q.view() == Seq::<Seq<u8>>::empty(),
            q.capacity() == if max_items >= 1 {
                max_items as nat
            } else {
                1
            },
    {
        let cap = if max_items >= 1 {
            max_items
        } else {
            1
        };
        let q = DatagramQueue { max_items: cap, inner: VecDeque::new() };
        assert(q.view() =~= Seq::<Seq<u8>>::empty());
        q
    }

    /// Appends `payload` at the back, or hands it back unchanged when the queue is full.
    pub fn push(&mut self, payload: Vec<u8>) -> (r: Result<(), Vec<u8>>)
        ensures
            final(self).capacity() == old(self).capacity(),
            final(self).view().len() <= final(self).capacity(),
            (final(self).view(), r is Ok) == queue_push(
                old(self).view(),
                old(self).capacity(),
                payload@,
            ),
            r matches Err(p) ==> p@ == payload@,
            r is Ok <==> old(self).view().len() < old(self).capacity(),
            r is Ok ==> final(self).view() == old(self).view().push(payload@),
            r is Err ==> final(self).view() == old(self).view(),
    {
        proof {
            use_type_invariant(&*self);
        }
        if self.inner.len() >= self.max_items {
            return Err(payload);
        }
        let ghost before = self.inner@;
        let mut items = VecDeque::new();
        std::mem::swap(&mut items, &mut self.inner);
        items.push_back(payload);
        self.inner = items;
        assert(self.view() =~= before.map_values(|v: Vec<u8>| v@).push(payload@));
        Ok(())
    }

    /// Takes the oldest payload, if any.
    pub fn pop(&mut self) -> (r: Option<Vec<u8>>)
        ensures
            final(self).capacity() == old(self).capacity(),
            final(self).view() == queue_pop(old(self).view()).0,
            r matches Some(p) ==> queue_pop(old(self).view()).1 == Some(p@),
            r is None <==> queue_pop(old(self).view()).1 is None,
    {
        proof {
            use_type_invariant(&*self);
        }
        let ghost before = self.inner@;
        let mut items = VecDeque::new();
        std::mem::swap(&mut items, &mut self.inner);
        let r = items.pop_front();
        self.inner = items;
        assert(self.view() =~= queue_pop(before.map_values(|v: Vec<u8>| v@)).0);
        r
    }

    /// The number of payloads waiting.
    pub fn len(&self) -> (n: usize)
        ensures
            n == self.view().len(),
            n <= self.capacity(),
            self.capacity() >= 1,
    {
        proof {
            use_type_invariant(self);
        }
        self.inner.len()
    }

    /// Whether no payload is waiting.
    pub fn is_empty(&self) -> (b: bool)
        ensures
            b == (self.view().len() == 0),
    {
        self.len() == 0
    }
}

} // verus!

//! Library API for first-party tools: connection roles and the sample window
//! behind the jitter estimate.
use vstd::prelude::*;

verus! {

/// High-level connection intent for documentation and UI labels (both sides use QUIC client/server).
///
/// - **Broadcast:** discoverable listener + optional browse (mDNS).
/// - **Push:** sender dials listener (outbound from generator to fixed monitor).
/// - **Pull:** receiver dials listener on source (outbound from monitor to generator).
#[derive(Debug, Clone, Copy, PartialEq, Eq)]
pub enum ConnectionIntent {
    Broadcast,
    PushCaller,
    PullCaller,
}

pub open spec fn intent_description(intent: ConnectionIntent) -> Seq<char> {
    match intent {
        ConnectionIntent::Broadcast => "LAN discovery / advertised listener"@,
        ConnectionIntent::PushCaller => "Call out to peer listener (source pushes)"@,
        ConnectionIntent::PullCaller => "Call peer listener (receiver pulls)"@,
    }
}

impl ConnectionIntent {
    /// A one-line label for the intent.
    pub fn description(self) -> (d: &'static str)
        ensures
            d@ == intent_description(self),
    {
        match self {
            ConnectionIntent::Broadcast => "LAN discovery / advertised listener",
            ConnectionIntent::PushCaller => "Call out to peer listener (source pushes)",
            ConnectionIntent::PullCaller => "Call peer listener (receiver pulls)",
        }
    }
}

/// The smallest window a [`SampleRing`] keeps.
pub const MIN_RING_CAPACITY: usize = 4;

/// Every sample among the last `cap` of `history` sits in slot `k % cap`
/// (`k` its position in `history`), and the ring holds no other slot.
pub open spec fn ring_holds_recent<T>(slots: Seq<T>, history: Seq<T>, cap: nat) -> bool {
    &&& cap > 0
    &&& slots.len() == if history.len() < cap {
        history.len()
    } else {
        cap
    }
    &&& forall|k: int|
        history.len() - cap <= k < history.len() && 0 <= k ==> #[trigger] history[k] == slots[k
            % (cap as int)]
}

/// A fixed window over the most recent samples: the first `capacity` samples
/// fill it, later ones overwrite the oldest in turn.
pub struct SampleRing<T> {
    cap: usize,
    samples: Vec<T>,
    idx: usize,
    history: Ghost<Seq<T>>,
}

proof fn lemma_mod_step(a: int, cap: int)
    requires
        cap > 0,
        a >= 0,
    ensures
        (a + cap) % cap == a % cap,
{
    assert((a + cap) % cap == a % cap) by (nonlinear_arith)
        requires
            cap > 0,
            a >= 0,
    ;
}

proof fn lemma_mod_distinct(a: int, b: int, cap: int)
    requires
        cap > 0,
        0 <= b < a < b + cap,
    ensures
        a % cap != b % cap,
{
    assert(a % cap != b % cap) by (nonlinear_arith)
        requires
            cap > 0,
            0 <= b < a < b + cap,
    ;
}

impl<T> SampleRing<T> {
    /// The window keeps at least [`MIN_RING_CAPACITY`] slots, holds the most
    /// recent samples, and `idx` counts the overwrites so far.
    #[verifier::type_invariant]
    spec fn holds_recent(&self) -> bool {
        &&& self.cap >= MIN_RING_CAPACITY
        &&& ring_holds_recent(self.samples@, self.history@, self.cap as nat)
        &&& self.idx == if self.history@.len() < self.cap {
            0
        } else {
            self.history@.len() - self.cap
        }
    }
}

impl<T: Copy> SampleRing<T> {
    /// The slots, in storage order.
    pub closed spec fn slots(&self) -> Seq<T> {
        self.samples@
    }

    /// Every sample pushed so far, oldest first.
    pub closed spec fn history(&self) -> Seq<T> {
        self.history@
    }

    /// How many samples the window keeps.
    pub closed spec fn capacity(&self) -> nat {
        self.cap as nat
    }

    /// An empty window of `capacity` samples (at least [`MIN_RING_CAPACITY`]).
    pub fn new(capacity: usize) -> (r: Self)
        ensures
            r.history() == Seq::<T>::empty(),
            r.slots() == Seq::<T>::empty(),
            r.capacity() == if capacity >= MIN_RING_CAPACITY {
                capacity as nat
            } else {
                MIN_RING_CAPACITY as nat
            },
    {
        let cap = if capacity >= MIN_RING_CAPACITY {
            capacity
        } else {
            MIN_RING_CAPACITY
        };
        SampleRing { cap, samples: Vec::new(), idx: 0, history: Ghost(Seq::empty()) }
    }

    /// Records one sample: appended while the window is filling, afterwards
    /// written over the oldest slot.
    pub fn push(&mut self, v: T)
        requires
            old(self).history().len() < usize::MAX,
        ensures
            final(self).capacity() == old(self).capacity(),
            final(self).history() == old(self).history().push(v),
            ring_holds_recent(final(self).slots(), final(self).history(), final(self).capacity()),
    {
        proof {
            use_type_invariant(&*self);
        }
        let mut ring = SampleRing {
            cap: self.cap,
            samples: Vec::new(),
            idx: 0,
            history: Ghost(Seq::empty()),
        };
        std::mem::swap(&mut ring, self);
        let cap_exec = ring.cap;
        let mut samples = ring.samples;
        let mut idx = ring.idx;
        let ghost h = ring.history@;
        let ghost cap = cap_exec as int;
        let ghost old_slots = samples@;
        if samples.len() < cap_exec {
            samples.push(v);
            proof {
                assert forall|k: int|
                    h.push(v).len() - cap <= k < h.push(v).len() && 0 <= k implies #[trigger] h.push(
                    v,
                )[k] == samples@[k % cap] by {
                    vstd::arithmetic::div_mod::lemma_small_mod(k as nat, cap as nat);
                    if k < h.len() {
                        assert(h[k] == old_slots[k % cap]);
                    }
                }
            }
        } else {
            let slot = idx % cap_exec;
            samples[slot] = v;
            idx = idx + 1;
            proof {
                let n = h.len() as int;
                lemma_mod_step(slot as int, cap);
                assert(n % cap == slot as int) by {
                    lemma_mod_step((n - cap), cap);
                }
                assert forall|k: int|
                    h.push(v).len() - cap <= k < h.push(v).len() && 0 <= k implies #[trigger] h.push(
                    v,
                )[k] == samples@[k % cap] by {
                    if k < n {
                        lemma_mod_distinct(n, k, cap);
                        assert(h[k] == old_slots[k % cap]);
                    }
                }
            }
        }
        *self = SampleRing { cap: cap_exec, samples, idx, history: Ghost(h.push(v)) };
    }

    /// The number of samples held (at most the capacity).
    pub fn len(&self) -> (n: usize)
        ensures
            n == self.slots().len(),
            n <= self.capacity(),
    {
        proof {
            use_type_invariant(self);
        }
        self.samples.len()
    }

    /// The sample held in slot `i`.
    pub fn get(&self, i: usize) -> (v: T)
        requires
            i < self.slots().len(),
        ensures
            v == self.slots()[i as int],
    {
        self.samples[i]
    }
}

} // verus!

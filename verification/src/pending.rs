use vstd::prelude::*;
use crate::types::GpsEvent;

verus! {

/// How many events wait at most between two reads.
pub const PENDING_CAPACITY: usize = 8;

#[verifier::external_type_specification]
#[verifier::external_body]
#[verifier::reject_recursive_types(T)]
pub struct ExDeque<T, const N: usize>(heapless::Deque<T, N>);

/// The events a queue holds, front first.
pub uninterp spec fn queued_events(q: heapless::Deque<GpsEvent, 8>) -> Seq<GpsEvent>;

/// heapless's `Deque::new`: an empty queue.
#[verifier::external_body]
fn deque_new() -> (q: heapless::Deque<GpsEvent, 8>)
    ensures
        queued_events(q) == Seq::<GpsEvent>::empty(),
{
    heapless::Deque::new()
}

/// heapless's `Deque::push_back`: appends the event at the back unless the
/// queue already holds its capacity of eight, in which case the event is
/// handed back (here as `Some`, from the `Err` that heapless returns) and the
/// queue is left as it was.
#[verifier::external_body]
fn deque_push_back(q: &mut heapless::Deque<GpsEvent, 8>, ev: GpsEvent) -> (rejected: Option<GpsEvent>)
    ensures
        queued_events(*old(q)).len() < 8 ==> rejected is None
            && queued_events(*final(q)) == queued_events(*old(q)).push(ev),
        queued_events(*old(q)).len() >= 8 ==> rejected == Some(ev)
            && queued_events(*final(q)) == queued_events(*old(q)),
    no_unwind
{
    q.push_back(ev).err()
}

/// heapless's `Deque::pop_front`: removes and returns the front event, or
/// nothing if the queue is empty. Neither this nor `push_back` panics.
#[verifier::external_body]
fn deque_pop_front(q: &mut heapless::Deque<GpsEvent, 8>) -> (r: Option<GpsEvent>)
    ensures
        queued_events(*old(q)).len() == 0 ==> r is None && queued_events(*final(q)) == queued_events(*old(q)),
        queued_events(*old(q)).len() > 0 ==> r == Some(queued_events(*old(q))[0])
            && queued_events(*final(q)) == queued_events(*old(q)).drop_first(),
    no_unwind
{
    q.pop_front()
}

/// heapless's `Deque::len`: the number of queued events.
#[verifier::external_body]
fn deque_len(q: &heapless::Deque<GpsEvent, 8>) -> (n: usize)
    ensures
        n == queued_events(*q).len(),
{
    q.len()
}

/// Events decoded from a read that are waiting to be handed out.
pub struct PendingEvents {
    queue: heapless::Deque<GpsEvent, 8>,
}

impl View for PendingEvents {
    type V = Seq<GpsEvent>;

    closed spec fn view(&self) -> Seq<GpsEvent> {
        queued_events(self.queue)
    }
}

/// The queue after offering an event, and whether it was taken.
pub open spec fn enqueue_spec(q: Seq<GpsEvent>, ev: GpsEvent) -> (Seq<GpsEvent>, bool) {
    if q.len() < PENDING_CAPACITY {
        (q.push(ev), true)
    } else {
        (q, false)
    }
}

/// The queue after taking its front event, and that event.
pub open spec fn dequeue_spec(q: Seq<GpsEvent>) -> (Seq<GpsEvent>, Option<GpsEvent>) {
    if q.len() == 0 {
        (q, None)
    } else {
        (q.drop_first(), Some(q[0]))
    }
}

impl PendingEvents {
    #[verifier::type_invariant]
    spec fn inv(self) -> bool {
        queued_events(self.queue).len() <= PENDING_CAPACITY
    }

    /// An empty queue.
    pub fn new() -> (p: PendingEvents)
        ensures
            p@ == Seq::<GpsEvent>::empty(),
    {
        PendingEvents { queue: deque_new() }
    }

    /// Number of waiting events.
    pub fn len(&self) -> (n: usize)
        ensures
            n == self@.len(),
            n <= PENDING_CAPACITY,
    {
        proof { use_type_invariant(self); }
        deque_len(&self.queue)
    }

    /// Queues an event behind those already waiting, unless the queue is
    /// full; a full queue drops the event and reports it as not taken.
    pub fn push(&mut self, ev: GpsEvent) -> (taken: bool)
        ensures
            (final(self)@, taken) == enqueue_spec(old(self)@, ev),
    {
        proof { use_type_invariant(&*self); }
        let rejected = deque_push_back(&mut self.queue, ev);
        rejected.is_none()
    }

    /// Takes the event that has waited longest, if any.
    pub fn pop(&mut self) -> (ev: Option<GpsEvent>)
        ensures
            (final(self)@, ev) == dequeue_spec(old(self)@),
    {
        proof { use_type_invariant(&*self); }
        deque_pop_front(&mut self.queue)
    }
}

/// Offers events one after the other: the queue afterwards.
pub open spec fn enqueue_all(q: Seq<GpsEvent>, evs: Seq<GpsEvent>) -> Seq<GpsEvent>
    decreases evs.len(),
{
    if evs.len() == 0 {
        q
    } else {
        enqueue_spec(enqueue_all(q, evs.drop_last()), evs.last()).0
    }
}

/// Takes events until the queue is empty: the events in the order taken.
pub open spec fn drain(q: Seq<GpsEvent>) -> Seq<GpsEvent>
    decreases q.len(),
{
    if q.len() == 0 {
        Seq::empty()
    } else {
        seq![dequeue_spec(q).1.unwrap()] + drain(dequeue_spec(q).0)
    }
}

/// Events leave in the order they entered: up to eight events offered to
/// an empty queue are all taken, and taking until empty gives them back in
/// that order.
pub proof fn lemma_fifo(evs: Seq<GpsEvent>)
    requires
        evs.len() <= PENDING_CAPACITY,
    ensures
        enqueue_all(Seq::empty(), evs) == evs,
        drain(evs) == evs,
    decreases evs.len(),
{
    if evs.len() > 0 {
        lemma_fifo(evs.drop_last());
        assert(evs.drop_last().push(evs.last()) =~= evs);
        lemma_fifo(evs.drop_first());
        assert(seq![evs[0]] + evs.drop_first() =~= evs);
    }
}

/// A full queue keeps what it holds: an event offered to it is not taken,
/// and the waiting events still come out first, in order.
pub proof fn lemma_full_queue_drops(q: Seq<GpsEvent>, ev: GpsEvent)
    requires
        q.len() == PENDING_CAPACITY,
    ensures
        enqueue_spec(q, ev) == (q, false),
        drain(enqueue_spec(q, ev).0) == drain(q),
{
}

} // verus!

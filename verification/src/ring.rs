//! The bounded wrapping ring that queues key events while a hold-tap
//! decision is pending. The queue itself is `arraydeque`'s fixed-capacity
//! deque with wrapping (evict-oldest) behaviour; each entry is
//! `(is_press, switch_index, elapsed_ticks)`.

use vstd::prelude::*;
use arraydeque::ArrayDeque;
use arraydeque::Wrapping;

verus! {

/// Capacity of the event ring.
pub const RING_CAP: usize = 16;

/// A queued event in raw form: pressed flag, switch index, elapsed ticks.
pub type RingEntry = (bool, usize, u16);

/// A fixed-capacity wrapping queue of `RingEntry` values. Verus sees it
/// only through `ring_contents` and the trusted methods below, each a thin
/// wrapper over one `arraydeque` operation.
#[verifier::external_body]
pub struct EventRing {
    inner: ArrayDeque<RingEntry, 16, Wrapping>,
}

/// The queued entries, front (oldest) first.
pub uninterp spec fn ring_contents(q: EventRing) -> Seq<RingEntry>;

impl EventRing {
    /// Relies on arraydeque::ArrayDeque::new: a freshly created deque is
    /// empty.
    #[verifier::external_body]
    pub fn new() -> (r: EventRing)
        ensures
            ring_contents(r) == Seq::<RingEntry>::empty(),
    {
        EventRing { inner: ArrayDeque::new() }
    }

    /// Relies on arraydeque::ArrayDeque::push_back (wrapping behavior): the
    /// element is appended at the back; a full deque first evicts and
    /// returns its frontmost element.
    #[verifier::external_body]
    pub fn push_back(&mut self, item: RingEntry) -> (evicted: Option<RingEntry>)
        ensures
            ring_contents(*old(self)).len() < RING_CAP ==> {
                &&& ring_contents(*final(self)) == ring_contents(*old(self)).push(item)
                &&& evicted is None
            },
            ring_contents(*old(self)).len() == RING_CAP ==> {
                &&& ring_contents(*final(self)) == ring_contents(*old(self)).subrange(
                    1,
                    RING_CAP as int,
                ).push(item)
                &&& evicted == Some(ring_contents(*old(self))[0])
            },
    {
        self.inner.push_back(item)
    }

    /// Relies on arraydeque::ArrayDeque::pop_front: removes and returns the
    /// frontmost (oldest) element, or `None` when the deque is empty.
    #[verifier::external_body]
    pub fn pop_front(&mut self) -> (r: Option<RingEntry>)
        ensures
            ring_contents(*old(self)).len() == 0 ==> {
                &&& r is None
                &&& ring_contents(*final(self)) == ring_contents(*old(self))
            },
            ring_contents(*old(self)).len() > 0 ==> {
                &&& r == Some(ring_contents(*old(self))[0])
                &&& ring_contents(*final(self)) == ring_contents(*old(self)).subrange(
                    1,
                    ring_contents(*old(self)).len() as int,
                )
            },
    {
        self.inner.pop_front()
    }

    /// Relies on arraydeque::ArrayDeque::iter: yields the entries front to
    /// back.
    #[verifier::external_body]
    pub fn to_vec(&self) -> (r: Vec<RingEntry>)
        ensures
            r@ == ring_contents(*self),
    {
        self.inner.iter().copied().collect()
    }

    /// Relies on arraydeque::ArrayDeque::clear: removes every entry.
    #[verifier::external_body]
    pub fn clear(&mut self)
        ensures
            ring_contents(*final(self)) == Seq::<RingEntry>::empty(),
    {
        self.inner.clear()
    }

    /// Relies on the `Extend` impl for wrapping deques: elements are pushed
    /// at the back while capacity remains, which appends them all when they
    /// fit.
    #[verifier::external_body]
    pub fn extend(&mut self, items: Vec<RingEntry>)
        requires
            ring_contents(*old(self)).len() + items@.len() <= RING_CAP,
        ensures
            ring_contents(*final(self)) == ring_contents(*old(self)) + items@,
    {
        self.inner.extend(items.into_iter())
    }
}

} // verus!

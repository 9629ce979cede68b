use vstd::prelude::*;

verus! {

/// The abstract state of a bounded FIFO queue.
pub ghost struct QueueState<T> {
    pub items: Seq<T>,
    pub capacity: nat,
    pub closed: bool,
}

/// A queue with room for `capacity` items and no items in it.
pub open spec fn empty_state<T>(capacity: nat) -> QueueState<T> {
    QueueState { items: Seq::empty(), capacity, closed: false }
}

/// Whether a send on `s` would be accepted now (rather than wait or fail).
pub open spec fn accepts<T>(s: QueueState<T>) -> bool {
    !s.closed && s.items.len() < s.capacity
}

/// The state after offering `x` to `s`: appended when accepted, unchanged otherwise.
pub open spec fn send_step<T>(s: QueueState<T>, x: T) -> QueueState<T> {
    if accepts(s) {
        QueueState { items: s.items.push(x), ..s }
    } else {
        s
    }
}

/// The state after one receive on `s`: the oldest item leaves, if there is one.
pub open spec fn receive_step<T>(s: QueueState<T>) -> QueueState<T> {
    if s.items.len() > 0 {
        QueueState { items: s.items.drop_first(), ..s }
    } else {
        s
    }
}

/// The state after offering each of `xs` in order, with nobody receiving.
pub open spec fn send_all<T>(s: QueueState<T>, xs: Seq<T>) -> QueueState<T>
    decreases xs.len(),
{
    if xs.len() == 0 {
        s
    } else {
        send_step(send_all(s, xs.drop_last()), xs.last())
    }
}

/// What a receive hands back.
pub enum Received<T> {
    /// The oldest item of the queue.
    Item(T),
    /// Nothing is queued now, but more may come.
    Empty,
    /// Nothing is queued and nothing more will come.
    Closed,
}

/// A first-in first-out queue holding at most `capacity` items, which can be
/// closed to tell receivers that no more items will come.
pub struct BoundedQueue<T> {
    items: Vec<T>,
    capacity: usize,
    closed: bool,
}

impl<T> View for BoundedQueue<T> {
    type V = QueueState<T>;

    closed spec fn view(&self) -> QueueState<T> {
        QueueState { items: self.items@, capacity: self.capacity as nat, closed: self.closed }
    }
}

impl<T> BoundedQueue<T> {
    /// Never more items than the capacity, and room for at least one.
    pub open spec fn wf(&self) -> bool {
        &&& self@.capacity > 0
        &&& self@.items.len() <= self@.capacity
    }

    /// An open, empty queue with room for `capacity` items.
    pub fn new(capacity: usize) -> (q: Self)
        requires
            capacity > 0,
        ensures
            q.wf(),
            q@ == empty_state::<T>(capacity as nat),
    {
        BoundedQueue { items: Vec::new(), capacity, closed: false }
    }

    /// The number of items waiting.
    pub fn len(&self) -> (r: usize)
        ensures
            r == self@.items.len(),
    {
        self.items.len()
    }

    /// The number of items the queue can hold.
    pub fn capacity(&self) -> (r: usize)
        ensures
            r == self@.capacity,
    {
        self.capacity
    }

    /// Whether the queue has been closed.
    pub fn is_closed(&self) -> (r: bool)
        ensures
            r == self@.closed,
    {
        self.closed
    }

    /// Whether a send would be accepted now.
    pub fn can_send(&self) -> (r: bool)
        ensures
            r == accepts(self@),
    {
        !self.closed && self.items.len() < self.capacity
    }

    /// Appends `item` when the queue is open and has room; otherwise hands
    /// it back, and a blocking sender should wait for a receive.
    pub fn try_send(&mut self, item: T) -> (r: Result<(), T>)
        requires
            old(self).wf(),
        ensures
            final(self).wf(),
            final(self)@ == send_step(old(self)@, item),
            r is Ok <==> accepts(old(self)@),
            r is Err ==> r->Err_0 == item,
    {
        if self.closed || self.items.len() >= self.capacity {
            Err(item)
        } else {
            self.items.push(item);
            Ok(())
        }
    }

    /// Takes the oldest item; when there is none, says whether more may come.
    pub fn receive(&mut self) -> (r: Received<T>)
        requires
            old(self).wf(),
        ensures
            final(self).wf(),
            final(self)@ == receive_step(old(self)@),
            old(self)@.items.len() > 0 ==> r == Received::Item(old(self)@.items[0]),
            old(self)@.items.len() == 0 && old(self)@.closed ==> r is Closed,
            old(self)@.items.len() == 0 && !old(self)@.closed ==> r is Empty,
    {
        if self.items.len() > 0 {
            let x = self.items.remove(0);
            assert(self@.items =~= old(self)@.items.drop_first());
            Received::Item(x)
        } else if self.closed {
            Received::Closed
        } else {
            Received::Empty
        }
    }

    /// Marks that no more items will be sent; items already queued stay.
    /// Closing twice is the same as closing once.
    pub fn close(&mut self)
        requires
            old(self).wf(),
        ensures
            final(self).wf(),
            final(self)@ == (QueueState { closed: true, ..old(self)@ }),
    {
        self.closed = true;
    }
}

/// Offering items one by one to an open queue with nobody receiving appends
/// them all while they fit.
pub proof fn lemma_send_all_fits<T>(capacity: nat, xs: Seq<T>)
    requires
        xs.len() <= capacity,
    ensures
        send_all(empty_state::<T>(capacity), xs) == (QueueState {
            items: xs,
            capacity,
            closed: false,
        }),
    decreases xs.len(),
{
    if xs.len() > 0 {
        lemma_send_all_fits(capacity, xs.drop_last());
        assert(xs.drop_last().push(xs.last()) =~= xs);
    } else {
        assert(xs =~= Seq::<T>::empty());
    }
}

/// Backpressure: with nobody receiving, a queue of capacity `c` takes the first
/// `c` sends, refuses the next one (a blocking sender waits there), and after
/// one receive that send goes through.
pub proof fn lemma_backpressure<T>(capacity: nat, xs: Seq<T>)
    requires
        capacity > 0,
        xs.len() == capacity + 1,
    ensures
        ({
            let full = send_all(empty_state::<T>(capacity), xs.take(capacity as int));
            &&& full.items == xs.take(capacity as int)
            &&& !accepts(full)
            &&& send_step(full, xs[capacity as int]) == full
            &&& accepts(receive_step(full))
            &&& send_step(receive_step(full), xs[capacity as int]).items
                == xs.subrange(1, capacity as int + 1)
        }),
{
    let first = xs.take(capacity as int);
    lemma_send_all_fits(capacity, first);
    let full = send_all(empty_state::<T>(capacity), first);
    assert(full.items.drop_first().push(xs[capacity as int]) =~= xs.subrange(1, capacity as int + 1));
}

/// Closing drains first: receives on a closed queue hand out the queued items
/// in order, and report the end only once none is left.
pub proof fn lemma_close_drains<T>(s: QueueState<T>)
    requires
        s.closed,
    ensures
        s.items.len() > 0 ==> receive_step(s).items == s.items.drop_first() && receive_step(s).closed,
        s.items.len() == 0 ==> receive_step(s) == s,
{
}

} // verus!

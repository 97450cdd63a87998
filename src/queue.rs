use vstd::prelude::*;

use heapless::spsc::Queue;

verus! {

#[verifier::external_type_specification]
#[verifier::external_body]
#[verifier::reject_recursive_types(T)]
pub struct ExQueue<T, const N: usize>(Queue<T, N>);

/// Number of samples the transport queue can hold (one slot of the backing
/// array is kept free to tell a full queue from an empty one).
pub const SAMPLE_QUEUE_CAPACITY: usize = 63;

/// Number of column records the drawn-column ring can hold.
pub const COLUMN_RING_CAPACITY: usize = 511;

/// What a transport queue holds, front first.
pub uninterp spec fn sample_items(q: Queue<u16, 64>) -> Seq<u16>;

/// What a column ring holds, as (baseline, height) pairs, front first.
pub uninterp spec fn column_items(q: Queue<(u16, u16), 512>) -> Seq<(u16, u16)>;

/// Relies on heapless's `Queue::new`: a new queue is empty.
#[verifier::external_body]
fn sample_queue_new() -> (r: Queue<u16, 64>)
    ensures
        sample_items(r) == Seq::<u16>::empty(),
{
    Queue::new()
}

/// Relies on heapless's `Queue::len`: the number of items held.
#[verifier::external_body]
fn sample_queue_len(q: &Queue<u16, 64>) -> (r: usize)
    ensures
        r == sample_items(*q).len(),
{
    q.len()
}

/// Relies on heapless's `Queue::enqueue`: the item goes to the back unless
/// the queue already holds `N - 1` items, in which case it is handed back.
#[verifier::external_body]
fn sample_queue_enqueue(q: &mut Queue<u16, 64>, v: u16) -> (r: Result<(), u16>)
    ensures
        sample_items(*old(q)).len() < 63 ==> r is Ok && sample_items(*final(q))
            == sample_items(*old(q)).push(v),
        sample_items(*old(q)).len() >= 63 ==> r is Err && r->Err_0 == v && sample_items(*final(q))
            == sample_items(*old(q)),
{
    q.enqueue(v)
}

/// Relies on heapless's `Queue::dequeue`: the front item, if any, is removed
/// and returned.
#[verifier::external_body]
fn sample_queue_dequeue(q: &mut Queue<u16, 64>) -> (r: Option<u16>)
    ensures
        sample_items(*old(q)).len() == 0 ==> r == None::<u16> && sample_items(*final(q))
            == sample_items(*old(q)),
        sample_items(*old(q)).len() > 0 ==> r == Some(sample_items(*old(q))[0]) && sample_items(
            *final(q),
        ) == sample_items(*old(q)).drop_first(),
{
    q.dequeue()
}

/// Relies on heapless's `Queue::new`: a new queue is empty.
#[verifier::external_body]
fn column_queue_new() -> (r: Queue<(u16, u16), 512>)
    ensures
        column_items(r) == Seq::<(u16, u16)>::empty(),
{
    Queue::new()
}

/// Relies on heapless's `Queue::enqueue`: the item goes to the back unless
/// the queue already holds `N - 1` items, in which case it is handed back.
#[verifier::external_body]
fn column_queue_enqueue(q: &mut Queue<(u16, u16), 512>, v: (u16, u16)) -> (r: Result<
    (),
    (u16, u16),
>)
    ensures
        column_items(*old(q)).len() < 511 ==> r is Ok && column_items(
            *final(q),
        ) == column_items(*old(q)).push(v),
        column_items(*old(q)).len() >= 511 ==> r is Err && r->Err_0 == v && column_items(
            *final(q),
        ) == column_items(*old(q)),
{
    q.enqueue(v)
}

/// Relies on heapless's `Queue::dequeue`: the front item, if any, is removed
/// and returned.
#[verifier::external_body]
fn column_queue_dequeue(q: &mut Queue<(u16, u16), 512>) -> (r: Option<(u16, u16)>)
    ensures
        column_items(*old(q)).len() == 0 ==> r == None::<(u16, u16)> && column_items(*final(q))
            == column_items(*old(q)),
        column_items(*old(q)).len() > 0 ==> r == Some(column_items(*old(q))[0]) && column_items(
            *final(q),
        ) == column_items(*old(q)).drop_first(),
{
    q.dequeue()
}

/// What `enqueue` leaves in a transport queue that held `items`.
pub open spec fn enqueued(items: Seq<u16>, v: u16) -> Seq<u16> {
    if items.len() < SAMPLE_QUEUE_CAPACITY {
        items.push(v)
    } else {
        items
    }
}

/// The contents after enqueueing each of `xs`, in order, into a queue that
/// held `items`.
pub open spec fn enqueued_all(items: Seq<u16>, xs: Seq<u16>) -> Seq<u16>
    decreases xs.len(),
{
    if xs.len() == 0 {
        items
    } else {
        enqueued(enqueued_all(items, xs.drop_last()), xs.last())
    }
}

/// Up to its capacity, an empty queue takes every value offered and holds
/// them in the order they came, so that dequeueing returns them in that
/// order.
pub proof fn lemma_fifo(xs: Seq<u16>)
    requires
        xs.len() <= SAMPLE_QUEUE_CAPACITY,
    ensures
        enqueued_all(Seq::empty(), xs) == xs,
    decreases xs.len(),
{
    if xs.len() > 0 {
        lemma_fifo(xs.drop_last());
        assert(xs.drop_last().push(xs.last()) =~= xs);
    }
}

/// A full queue turns a value away and keeps what it held; once one value
/// has left it, the next one is taken.
pub proof fn lemma_full_then_reuse(items: Seq<u16>, v: u16, w: u16)
    requires
        items.len() == SAMPLE_QUEUE_CAPACITY,
    ensures
        enqueued(items, v) == items,
        enqueued(items.drop_first(), w) == items.drop_first().push(w),
{
}

/// Bounded single-producer single-consumer queue carrying calibrated samples
/// from the sampler to the renderer, in production order.
pub struct SampleQueue {
    inner: Queue<u16, 64>,
}

impl View for SampleQueue {
    type V = Seq<u16>;

    closed spec fn view(&self) -> Seq<u16> {
        sample_items(self.inner)
    }
}

impl SampleQueue {
    /// An empty queue.
    pub fn new() -> (r: SampleQueue)
        ensures
            r@ == Seq::<u16>::empty(),
    {
        SampleQueue { inner: sample_queue_new() }
    }

    /// The largest number of samples the queue holds at once.
    pub fn capacity(&self) -> (r: usize)
        ensures
            r == SAMPLE_QUEUE_CAPACITY,
    {
        SAMPLE_QUEUE_CAPACITY
    }

    /// The number of samples waiting.
    pub fn len(&self) -> (r: usize)
        ensures
            r == self@.len(),
    {
        sample_queue_len(&self.inner)
    }

    /// Whether no sample is waiting.
    pub fn is_empty(&self) -> (r: bool)
        ensures
            r == (self@.len() == 0),
    {
        sample_queue_len(&self.inner) == 0
    }

    /// Appends `v`; a full queue is left as it was and `v` is handed back.
    pub fn enqueue(&mut self, v: u16) -> (r: Result<(), u16>)
        ensures
            final(self)@ == enqueued(old(self)@, v),
            r is Ok <==> old(self)@.len() < SAMPLE_QUEUE_CAPACITY,
            r is Err ==> r->Err_0 == v,
    {
        sample_queue_enqueue(&mut self.inner, v)
    }

    /// Moves every waiting sample, in order, into a queue of its own and
    /// leaves this one empty.
    pub fn take(&mut self) -> (r: SampleQueue)
        ensures
            r@ == old(self)@,
            final(self)@ == Seq::<u16>::empty(),
    {
        let mut taken = SampleQueue::new();
        std::mem::swap(self, &mut taken);
        taken
    }

    /// Removes and returns the oldest sample, if there is one.
    pub fn dequeue(&mut self) -> (r: Option<u16>)
        ensures
            old(self)@.len() == 0 ==> r is None && final(self)@ == old(self)@,
            old(self)@.len() > 0 ==> r == Some(old(self)@[0]) && final(self)@ == old(
                self,
            )@.drop_first(),
    {
        sample_queue_dequeue(&mut self.inner)
    }
}

/// The column record a stored pair stands for.
pub open spec fn pair_data(p: (u16, u16)) -> crate::display::Data {
    crate::display::Data { y: p.0, height: p.1 }
}

/// Fixed-capacity ring of the column records currently on screen, oldest
/// first.
pub struct ColumnRing {
    inner: Queue<(u16, u16), 512>,
}

impl View for ColumnRing {
    type V = Seq<crate::display::Data>;

    closed spec fn view(&self) -> Seq<crate::display::Data> {
        column_items(self.inner).map_values(|p: (u16, u16)| pair_data(p))
    }
}

impl ColumnRing {
    /// An empty ring.
    pub fn new() -> (r: ColumnRing)
        ensures
            r@ == Seq::<crate::display::Data>::empty(),
    {
        let r = ColumnRing { inner: column_queue_new() };
        assert(r@ =~= Seq::<crate::display::Data>::empty());
        r
    }

    /// Appends `d`; a full ring is left as it was.
    pub fn enqueue(&mut self, d: crate::display::Data) -> (r: Result<(), crate::display::Data>)
        ensures
            old(self)@.len() < COLUMN_RING_CAPACITY ==> r is Ok && final(self)@ == old(
                self,
            )@.push(d),
            old(self)@.len() >= COLUMN_RING_CAPACITY ==> r is Err && r->Err_0 == d
                && final(self)@ == old(self)@,
    {
        match column_queue_enqueue(&mut self.inner, (d.y, d.height)) {
            Ok(()) => {
                assert(self@ =~= old(self)@.push(d));
                Ok(())
            },
            Err(_) => Err(d),
        }
    }

    /// Removes and returns the oldest record, if there is one.
    pub fn dequeue(&mut self) -> (r: Option<crate::display::Data>)
        ensures
            old(self)@.len() == 0 ==> r is None && final(self)@ == old(self)@,
            old(self)@.len() > 0 ==> r == Some(old(self)@[0]) && final(self)@ == old(
                self,
            )@.drop_first(),
    {
        match column_queue_dequeue(&mut self.inner) {
            Some(p) => {
                assert(self@ =~= old(self)@.drop_first());
                Some(crate::display::Data { y: p.0, height: p.1 })
            },
            None => None,
        }
    }
}

} // verus!

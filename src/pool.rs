use crossbeam::queue::ArrayQueue;
use vstd::prelude::*;

verus! {

#[verifier::external_type_specification]
#[verifier::external_body]
#[verifier::reject_recursive_types(T)]
pub struct ExArrayQueue<T>(ArrayQueue<T>);

/// What a queue holds, oldest first.
pub uninterp spec fn queue_items(q: ArrayQueue<u64>) -> Seq<u64>;

/// The capacity that a queue was made with.
pub uninterp spec fn queue_bound(q: ArrayQueue<u64>) -> nat;

/// Relies on `ArrayQueue::new`: an empty queue of capacity `cap`; it panics
/// on zero and on capacities near `usize::MAX`.
#[verifier::external_body]
fn queue_new(cap: usize) -> (q: ArrayQueue<u64>)
    requires
        0 < cap <= u32::MAX,
    ensures
        queue_items(q) == Seq::<u64>::empty(),
        queue_bound(q) == cap,
{
    ArrayQueue::new(cap)
}

/// Relies on `ArrayQueue::len`: the number of queued items.
#[verifier::external_body]
fn queue_len(q: &ArrayQueue<u64>) -> (r: usize)
    ensures
        r == queue_items(*q).len(),
{
    q.len()
}

/// Relies on `ArrayQueue::capacity`: the capacity given at construction.
#[verifier::external_body]
fn queue_capacity(q: &ArrayQueue<u64>) -> (r: usize)
    ensures
        r == queue_bound(*q),
{
    q.capacity()
}

/// Relies on `ArrayQueue::push_mut`: appends at the tail, or hands the value
/// back when the queue is full.
#[verifier::external_body]
fn queue_push(q: &mut ArrayQueue<u64>, value: u64) -> (r: Result<(), u64>)
    requires
        queue_items(*old(q)).len() <= queue_bound(*old(q)),
    ensures
        queue_bound(*final(q)) == queue_bound(*old(q)),
        queue_items(*old(q)).len() < queue_bound(*old(q)) ==> {
            &&& r == Ok::<(), u64>(())
            &&& queue_items(*final(q)) == queue_items(*old(q)).push(value)
        },
        queue_items(*old(q)).len() == queue_bound(*old(q)) ==> {
            &&& r == Err::<(), u64>(value)
            &&& queue_items(*final(q)) == queue_items(*old(q))
        },
{
    q.push_mut(value)
}

/// Relies on `ArrayQueue::pop_mut`: takes the item at the head, if any.
#[verifier::external_body]
fn queue_pop(q: &mut ArrayQueue<u64>) -> (r: Option<u64>)
    ensures
        queue_bound(*final(q)) == queue_bound(*old(q)),
        queue_items(*old(q)).len() == 0 ==> {
            &&& r == None::<u64>
            &&& queue_items(*final(q)) == queue_items(*old(q))
        },
        queue_items(*old(q)).len() > 0 ==> {
            &&& r == Some(queue_items(*old(q))[0])
            &&& queue_items(*final(q)) == queue_items(*old(q)).drop_first()
        },
{
    q.pop_mut()
}

/// The frame offset of slot `k` when every slot is `chunk` bytes long.
pub open spec fn slot_offset(k: int, chunk: int) -> int {
    k * chunk
}

/// The offsets of all `count` slots, in order.
pub open spec fn all_offsets(count: nat, chunk: nat) -> Seq<u64> {
    Seq::new(count, |k: int| slot_offset(k, chunk as int) as u64)
}

/// The bounded queue of frame offsets that userspace currently owns.
pub struct AddressPool {
    queue: ArrayQueue<u64>,
}

impl AddressPool {
    /// The offsets in the pool, the next to leave first.
    pub closed spec fn view(&self) -> Seq<u64> {
        queue_items(self.queue)
    }

    pub closed spec fn bound(&self) -> nat {
        queue_bound(self.queue)
    }

    pub open spec fn wf(&self) -> bool {
        &&& 0 < self.bound() <= u32::MAX
        &&& self@.len() <= self.bound()
    }

    /// A pool of capacity `frame_count` that holds the offset of every slot,
    /// `k * chunk` for `k` in `0..frame_count`, in increasing order.
    pub fn new(frame_count: u32, chunk: u32) -> (r: AddressPool)
        requires
            frame_count > 0,
        ensures
            r.wf(),
            r.bound() == frame_count,
            r@ == all_offsets(frame_count as nat, chunk as nat),
    {
        let mut queue = queue_new(frame_count as usize);
        let mut k: u32 = 0;
        while k < frame_count
            invariant
                k <= frame_count,
                queue_bound(queue) == frame_count,
                queue_items(queue) == all_offsets(k as nat, chunk as nat),
            decreases frame_count - k,
        {
            proof {
                assert((k as nat) * (chunk as nat) <= u32::MAX * u32::MAX) by (nonlinear_arith)
                    requires
                        k <= u32::MAX,
                        chunk <= u32::MAX,
                ;
            }
            let offset = (k as u64) * (chunk as u64);
            let _ = queue_push(&mut queue, offset);
            k = k + 1;
            assert(queue_items(queue) =~= all_offsets(k as nat, chunk as nat));
        }
        AddressPool { queue }
    }

    pub fn len(&self) -> (r: u32)
        requires
            self.wf(),
        ensures
            r == self@.len(),
    {
        queue_len(&self.queue) as u32
    }

    pub fn capacity(&self) -> (r: u32)
        requires
            self.wf(),
        ensures
            r == self.bound(),
    {
        queue_capacity(&self.queue) as u32
    }

    /// How many offsets can still be pushed.
    pub fn free(&self) -> (r: u32)
        requires
            self.wf(),
        ensures
            r == self.bound() - self@.len(),
    {
        (queue_capacity(&self.queue) - queue_len(&self.queue)) as u32
    }

    /// Appends `addr`; when the pool is full it is handed back unchanged.
    pub fn push(&mut self, addr: u64) -> (r: Result<(), u64>)
        requires
            old(self).wf(),
        ensures
            final(self).wf(),
            final(self).bound() == old(self).bound(),
            old(self)@.len() < old(self).bound() ==> r == Ok::<(), u64>(()) && final(self)@
                == old(self)@.push(addr),
            old(self)@.len() == old(self).bound() ==> r == Err::<(), u64>(addr) && final(self)@
                == old(self)@,
    {
        queue_push(&mut self.queue, addr)
    }

    /// Takes the oldest offset, if there is one.
    pub fn pop(&mut self) -> (r: Option<u64>)
        requires
            old(self).wf(),
        ensures
            final(self).wf(),
            final(self).bound() == old(self).bound(),
            old(self)@.len() == 0 ==> r == None::<u64> && final(self)@ == old(self)@,
            old(self)@.len() > 0 ==> r == Some(old(self)@[0]) && final(self)@ == old(
                self,
            )@.drop_first(),
    {
        queue_pop(&mut self.queue)
    }
}

} // verus!

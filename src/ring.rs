use crate::util::{is_pow2, is_power_of_two};
use vstd::prelude::*;

verus! {

/// One entry of a receive or transmit ring: where the frame is and how many
/// bytes it holds.
#[derive(Clone, Copy, Debug, PartialEq, Eq, Structural)]
pub struct XdpDesc {
    pub addr: u64,
    pub len: u32,
}

/// Why a ring could not be made.
#[derive(Debug, PartialEq, Eq, Structural)]
pub enum RingError {
    /// The requested size is not a power of two.
    Size(u32),
}

/// A single-producer/single-consumer ring of fixed, power-of-two capacity.
///
/// The producer reserves slots, writes them and submits them; the consumer
/// peeks at submitted entries, reads them and releases them.  Indices handed
/// out by `reserve` and `peek` are ring positions; a caller adds its offset
/// to them (`index + i`) and the ring wraps the sum.
pub struct RingBuffer<T> {
    slots: Vec<T>,
    head: u32,
    len: u32,
    reserved: u32,
    wakeup: bool,
}

/// The slot that ring position `x` lands in, for `x < 2 * cap`.
pub open spec fn wrap(x: int, cap: int) -> int {
    if x >= cap {
        x - cap
    } else {
        x
    }
}

impl<T: Copy> RingBuffer<T> {
    pub closed spec fn cap(&self) -> nat {
        self.slots@.len()
    }

    pub closed spec fn head(&self) -> nat {
        self.head as nat
    }

    /// The submitted entries that the consumer has not released, oldest first.
    pub closed spec fn view(&self) -> Seq<T> {
        Seq::new(
            self.len as nat,
            |k: int| self.slots@[wrap(self.head + k, self.slots@.len() as int)],
        )
    }

    /// The slots that the producer has reserved and not yet submitted.
    pub closed spec fn pending(&self) -> Seq<T> {
        Seq::new(
            self.reserved as nat,
            |j: int| self.slots@[wrap(self.head + self.len + j, self.slots@.len() as int)],
        )
    }

    /// The flag by which the consumer side asks to be woken up.
    pub closed spec fn wakeup_flag(&self) -> bool {
        self.wakeup
    }

    pub open spec fn wf(&self) -> bool {
        &&& is_pow2(self.cap())
        &&& self.cap() <= 0x8000_0000
        &&& self.head() < self.cap()
        &&& self@.len() + self.pending().len() <= self.cap()
    }

    /// Slots that neither the producer nor the consumer holds.
    pub open spec fn free_spec(&self) -> nat {
        (self.cap() - self.view().len() - self.pending().len()) as nat
    }

    /// Makes an empty ring of `size` slots, each first holding `blank`.
    pub fn new(size: u32, blank: T) -> (r: Result<Self, RingError>)
        ensures
            is_pow2(size as nat) <==> r is Ok,
            !is_pow2(size as nat) ==> r == Err::<Self, RingError>(RingError::Size(size)),
            r matches Ok(ring) ==> {
                &&& ring.wf()
                &&& ring.cap() == size
                &&& ring@ == Seq::<T>::empty()
                &&& ring.pending() == Seq::<T>::empty()
                &&& ring.head() == 0
                &&& !ring.wakeup_flag()
            },
    {
        if !is_power_of_two(size) {
            return Err(RingError::Size(size));
        }
        proof {
            lemma_pow2_u32_bound(size as nat);
        }
        let mut slots: Vec<T> = Vec::new();
        let mut i: u32 = 0;
        while i < size
            invariant
                i <= size,
                slots@.len() == i,
            decreases size - i,
        {
            slots.push(blank);
            i = i + 1;
        }
        let ring = RingBuffer { slots, head: 0, len: 0, reserved: 0, wakeup: false };
        assert(ring@ =~= Seq::<T>::empty());
        assert(ring.pending() =~= Seq::<T>::empty());
        Ok(ring)
    }

    pub fn capacity(&self) -> (r: u32)
        requires
            self.wf(),
        ensures
            r == self.cap(),
    {
        self.slots.len() as u32
    }

    /// The number of submitted entries that the consumer has not released.
    pub fn len(&self) -> (r: u32)
        requires
            self.wf(),
        ensures
            r == self@.len(),
    {
        self.len
    }

    /// The number of slots that the producer may still reserve.
    pub fn free_slots(&self) -> (r: u32)
        requires
            self.wf(),
        ensures
            r == self.free_spec(),
    {
        self.slots.len() as u32 - self.len - self.reserved
    }

    /// Whether the consumer side has asked to be woken up.
    pub fn needs_wakeup(&self) -> (r: bool)
        ensures
            r == self.wakeup_flag(),
    {
        self.wakeup
    }

    /// Sets or clears the wakeup request; only the consumer side does this.
    pub fn set_needs_wakeup(&mut self, flag: bool)
        ensures
            final(self).wakeup_flag() == flag,
            final(self)@ == old(self)@,
            final(self).pending() == old(self).pending(),
            final(self).cap() == old(self).cap(),
            final(self).wf() == old(self).wf(),
    {
        self.wakeup = flag;
    }

    /// Reserves up to `n` slots for the producer: as many as are free.
    /// Returns how many were granted and the position of the first one.
    pub fn reserve(&mut self, n: u32) -> (r: (u32, u32))
        requires
            old(self).wf(),
        ensures
            final(self).wf(),
            r.0 == if n <= old(self).free_spec() { n as nat } else { old(self).free_spec() },
            r.1 == old(self).head() + old(self)@.len() + old(self).pending().len(),
            final(self)@ == old(self)@,
            final(self).cap() == old(self).cap(),
            final(self).head() == old(self).head(),
            final(self).wakeup_flag() == old(self).wakeup_flag(),
            final(self).pending().len() == old(self).pending().len() + r.0,
            final(self).pending().take(old(self).pending().len() as int) == old(self).pending(),
    {
        let free = self.slots.len() as u32 - self.len - self.reserved;
        let granted = if n <= free {
            n
        } else {
            free
        };
        let start = self.head + self.len + self.reserved;
        self.reserved = self.reserved + granted;
        assert(self@ =~= old(self)@);
        assert(self.pending().take(old(self).pending().len() as int) =~= old(self).pending());
        (granted, start)
    }

    /// Writes `value` into the reserved slot at position `index`.
    pub fn write(&mut self, index: u32, value: T)
        requires
            old(self).wf(),
            old(self).head() + old(self)@.len() <= index,
            index < old(self).head() + old(self)@.len() + old(self).pending().len(),
        ensures
            final(self).wf(),
            final(self)@ == old(self)@,
            final(self).cap() == old(self).cap(),
            final(self).head() == old(self).head(),
            final(self).wakeup_flag() == old(self).wakeup_flag(),
            final(self).pending() == old(self).pending().update(
                index - old(self).head() - old(self)@.len(),
                value,
            ),
    {
        let cap = self.slots.len() as u32;
        let slot = if index >= cap {
            index - cap
        } else {
            index
        };
        self.slots.set(slot as usize, value);
        assert(self@ =~= old(self)@);
        assert(self.pending() =~= old(self).pending().update(
            index - old(self).head() - old(self)@.len(),
            value,
        ));
    }

    /// Publishes the first `n` reserved slots to the consumer.
    pub fn submit(&mut self, n: u32)
        requires
            old(self).wf(),
            n <= old(self).pending().len(),
        ensures
            final(self).wf(),
            final(self)@ == old(self)@ + old(self).pending().take(n as int),
            final(self).pending() == old(self).pending().skip(n as int),
            final(self).cap() == old(self).cap(),
            final(self).head() == old(self).head(),
            final(self).wakeup_flag() == old(self).wakeup_flag(),
    {
        self.len = self.len + n;
        self.reserved = self.reserved - n;
        assert(self@ =~= old(self)@ + old(self).pending().take(n as int));
        assert(self.pending() =~= old(self).pending().skip(n as int));
    }

    /// Looks at up to `n` submitted entries without consuming them.
    /// Returns how many are available and the position of the first one.
    pub fn peek(&self, n: u32) -> (r: (u32, u32))
        requires
            self.wf(),
        ensures
            r.0 == if n <= self@.len() { n as nat } else { self@.len() },
            r.1 == self.head(),
    {
        let available = if n <= self.len {
            n
        } else {
            self.len
        };
        (available, self.head)
    }

    /// Reads the submitted entry at position `index`.
    pub fn read(&self, index: u32) -> (r: T)
        requires
            self.wf(),
            self.head() <= index < self.head() + self@.len(),
        ensures
            r == self@[index - self.head()],
    {
        let cap = self.slots.len() as u32;
        let slot = if index >= cap {
            index - cap
        } else {
            index
        };
        self.slots[slot as usize]
    }

    /// Consumes the `n` oldest submitted entries.
    pub fn release(&mut self, n: u32)
        requires
            old(self).wf(),
            n <= old(self)@.len(),
        ensures
            final(self).wf(),
            final(self)@ == old(self)@.skip(n as int),
            final(self).pending() == old(self).pending(),
            final(self).cap() == old(self).cap(),
            final(self).wakeup_flag() == old(self).wakeup_flag(),
    {
        let cap = self.slots.len() as u32;
        let moved = self.head + n;
        self.head = if moved >= cap {
            moved - cap
        } else {
            moved
        };
        self.len = self.len - n;
        assert(self@ =~= old(self)@.skip(n as int));
        assert(self.pending() =~= old(self).pending());
    }
}

spec fn two_to(k: nat) -> nat
    decreases k,
{
    if k == 0 {
        1
    } else {
        2 * two_to((k - 1) as nat)
    }
}

proof fn lemma_two_to_is_pow2(k: nat)
    ensures
        is_pow2(two_to(k)),
    decreases k,
{
    if k > 0 {
        lemma_two_to_is_pow2((k - 1) as nat);
        let b = two_to((k - 1) as nat);
        assert((2 * b) % 2 == 0 && (2 * b) / 2 == b);
    }
}

/// Two powers of two that differ are at least a factor of two apart.
proof fn lemma_pow2_gap(n: nat, b: nat)
    requires
        is_pow2(n),
        is_pow2(b),
        n > b,
    ensures
        n >= 2 * b,
    decreases b,
{
    if b > 1 {
        lemma_pow2_gap(n / 2, b / 2);
    }
}

proof fn lemma_pow2_u32_bound(n: nat)
    requires
        is_pow2(n),
        n <= u32::MAX,
    ensures
        n <= 0x8000_0000,
{
    reveal_with_fuel(two_to, 32);
    lemma_two_to_is_pow2(31);
    assert(two_to(31) == 0x8000_0000);
    if n > 0x8000_0000 {
        lemma_pow2_gap(n, 0x8000_0000);
    }
}

} // verus!

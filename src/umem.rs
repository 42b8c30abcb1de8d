use crate::buffer::Buffer;
use crate::ledger::{lemma_slot_start, slot_starts};
use crate::ring::{RingBuffer, RingError};
use crate::util::is_pow2;
use vstd::math::min;
use vstd::prelude::*;

verus! {

/// Why a frame area could not be set up.
#[derive(Debug, PartialEq, Eq, Structural)]
pub enum UmemError {
    /// A ring size that is not a power of two.
    Ring(RingError),
    /// A frame size that is zero or odd, or a slot size beyond 32 bits.
    FrameSize(u32),
}

/// The shared frame area, cut into `frame_count` slots of
/// `frame_headroom_size + frame_size` bytes each, with the fill ring that
/// hands free frames to the kernel and the completion ring that returns
/// transmitted ones.
pub struct Umem {
    pub(crate) frame_size: u32,
    pub(crate) frame_headroom_size: u32,
    pub(crate) frame_count: u32,
    pub(crate) fill_ring: RingBuffer<u64>,
    pub(crate) completion_ring: RingBuffer<u64>,
}

/// A frame size that the kernel accepts (even and not zero) and a slot size,
/// headroom included, that fits in 32 bits.
pub open spec fn valid_geometry(frame_size: u32, frame_headroom_size: u32) -> bool {
    &&& frame_size > 0
    &&& frame_size % 2 == 0
    &&& frame_size + frame_headroom_size <= u32::MAX
}

impl Umem {
    pub open(crate) spec fn frame_size_spec(&self) -> nat {
        self.frame_size as nat
    }

    pub open(crate) spec fn headroom_spec(&self) -> nat {
        self.frame_headroom_size as nat
    }

    pub open(crate) spec fn frame_count_spec(&self) -> nat {
        self.frame_count as nat
    }

    /// Bytes per slot: headroom and payload.
    pub open spec fn chunk(&self) -> nat {
        self.headroom_spec() + self.frame_size_spec()
    }

    /// Bytes in the whole frame area.
    pub open spec fn length_spec(&self) -> nat {
        self.chunk() * self.frame_count_spec()
    }

    pub open(crate) spec fn fill_queue(&self) -> RingBuffer<u64> {
        self.fill_ring
    }

    pub open(crate) spec fn completion_queue(&self) -> RingBuffer<u64> {
        self.completion_ring
    }

    pub open spec fn wf(&self) -> bool {
        &&& self.frame_size_spec() > 0
        &&& self.chunk() <= u32::MAX
        &&& is_pow2(self.frame_count_spec())
        &&& self.fill_queue().wf()
        &&& self.completion_queue().wf()
        &&& self.fill_queue().cap() == self.frame_count_spec()
        &&& self.completion_queue().cap() == self.frame_count_spec()
        &&& self.fill_queue().pending().len() == 0
        &&& self.completion_queue().pending().len() == 0
    }

    /// Sets up the geometry and the two rings, each of `ring_size` entries;
    /// there are as many frames as ring entries.
    pub fn new(frame_size: u32, frame_headroom_size: u32, ring_size: u32) -> (r: Result<
        Umem,
        UmemError,
    >)
        ensures
            !is_pow2(ring_size as nat) ==> r == Err::<Umem, UmemError>(
                UmemError::Ring(RingError::Size(ring_size)),
            ),
            is_pow2(ring_size as nat) && !valid_geometry(frame_size, frame_headroom_size) ==> r == Err::<
                Umem,
                UmemError,
            >(UmemError::FrameSize(frame_size)),
            is_pow2(ring_size as nat) && valid_geometry(frame_size, frame_headroom_size) <==> r is Ok,
            r matches Ok(u) ==> {
                &&& u.wf()
                &&& u.frame_size_spec() == frame_size
                &&& u.headroom_spec() == frame_headroom_size
                &&& u.frame_count_spec() == ring_size
                &&& u.fill_queue()@ == Seq::<u64>::empty()
                &&& u.completion_queue()@ == Seq::<u64>::empty()
                &&& !u.fill_queue().wakeup_flag()
            },
    {
        let fill_ring = match RingBuffer::<u64>::new(ring_size, 0) {
            Ok(ring) => ring,
            Err(e) => {
                return Err(UmemError::Ring(e));
            },
        };
        let completion_ring = match RingBuffer::<u64>::new(ring_size, 0) {
            Ok(ring) => ring,
            Err(e) => {
                return Err(UmemError::Ring(e));
            },
        };
        if frame_size == 0 || frame_size % 2 != 0 || frame_size > u32::MAX - frame_headroom_size {
            return Err(UmemError::FrameSize(frame_size));
        }
        Ok(Umem { frame_size, frame_headroom_size, frame_count: ring_size, fill_ring, completion_ring })
    }

    pub fn frame_size(&self) -> (r: u32)
        ensures
            r == self.frame_size_spec(),
    {
        self.frame_size
    }

    pub fn frame_headroom_size(&self) -> (r: u32)
        ensures
            r == self.headroom_spec(),
    {
        self.frame_headroom_size
    }

    pub fn frame_count(&self) -> (r: u32)
        ensures
            r == self.frame_count_spec(),
    {
        self.frame_count
    }

    /// The number of bytes that the frame area must span.
    pub fn length(&self) -> (r: u64)
        requires
            self.wf(),
        ensures
            r == self.length_spec(),
    {
        proof {
            assert(self.chunk() * self.frame_count_spec() <= (u32::MAX as nat) * 0x8000_0000)
                by (nonlinear_arith)
                requires
                    self.chunk() <= u32::MAX as nat,
                    self.frame_count_spec() <= 0x8000_0000,
            ;
        }
        (self.frame_headroom_size as u64 + self.frame_size as u64) * (self.frame_count as u64)
    }

    /// The number of addresses waiting in the fill ring for the kernel.
    pub fn fill_ring_len(&self) -> (r: u32)
        requires
            self.wf(),
        ensures
            r == self.fill_queue()@.len(),
    {
        self.fill_ring.len()
    }

    /// The number of completed addresses waiting to return to the pool.
    pub fn completion_ring_len(&self) -> (r: u32)
        requires
            self.wf(),
        ensures
            r == self.completion_queue()@.len(),
    {
        self.completion_ring.len()
    }

    /// Whether the kernel wants a wakeup to notice new fill entries.
    pub fn needs_wakeup(&self) -> (r: bool)
        ensures
            r == self.fill_queue().wakeup_flag(),
    {
        self.fill_ring.needs_wakeup()
    }

    /// Moves as many offsets from `pool` into the fill ring as both allow,
    /// oldest first, and returns how many moved.
    pub fn fill<B: Buffer<u64>>(&mut self, pool: &mut B) -> (r: u32)
        requires
            old(self).wf(),
            old(pool).buffer_wf(),
        ensures
            final(self).wf(),
            final(pool).buffer_wf(),
            r == min(old(pool).items().len() as int, old(self).fill_queue().free_spec() as int),
            final(pool).items() == old(pool).items().skip(r as int),
            final(self).fill_queue()@ == old(self).fill_queue()@ + old(pool).items().take(r as int),
            final(self).completion_queue() == old(self).completion_queue(),
            final(self).fill_queue().wakeup_flag() == old(self).fill_queue().wakeup_flag(),
            final(self).fill_queue().cap() == old(self).fill_queue().cap(),
            final(pool).limit() == old(pool).limit(),
            final(self).geometry_eq(*old(self)),
    {
        let available = pool.count();
        let free = self.fill_ring.free_slots();
        let size = if available < free {
            available
        } else {
            free
        };
        let (granted, index) = self.fill_ring.reserve(size);
        let mut i: u32 = 0;
        while i < granted
            invariant
                i <= granted,
                granted == size,
                size <= old(pool).items().len(),
                self.fill_ring.wf(),
                pool.buffer_wf(),
                pool.limit() == old(pool).limit(),
                self.fill_ring@ == old(self).fill_ring@,
                self.fill_ring.head() == old(self).fill_ring.head(),
                self.fill_ring.cap() == old(self).fill_ring.cap(),
                self.fill_ring.wakeup_flag() == old(self).fill_ring.wakeup_flag(),
                index == self.fill_ring.head() + self.fill_ring@.len(),
                self.fill_ring.pending().len() == granted,
                pool.items() == old(pool).items().skip(i as int),
                self.fill_ring.pending().take(i as int) == old(pool).items().take(i as int),
                self.completion_ring == old(self).completion_ring,
                self.frame_size == old(self).frame_size,
                self.frame_headroom_size == old(self).frame_headroom_size,
                self.frame_count == old(self).frame_count,
            decreases granted - i,
        {
            let addr = pool.pop().unwrap();
            let ghost before = self.fill_ring.pending();
            self.fill_ring.write(index + i, addr);
            proof {
                assert(self.fill_ring.pending().take(i + 1) =~= old(pool).items().take(i + 1)) by {
                    assert(before.take(i as int) == old(pool).items().take(i as int));
                    assert(addr == old(pool).items()[i as int]);
                }
            }
            i = i + 1;
            assert(pool.items() =~= old(pool).items().skip(i as int));
        }
        let ghost pending = self.fill_ring.pending();
        self.fill_ring.submit(granted);
        assert(pending.take(granted as int) =~= pending);
        assert(self.fill_ring.pending() =~= Seq::<u64>::empty());
        granted
    }

    /// Returns as many completed frames to `pool`, each as the start of its
    /// slot, as it has room
    /// for, oldest first, and returns how many moved.
    pub fn complete<B: Buffer<u64>>(&mut self, pool: &mut B) -> (r: u32)
        requires
            old(self).wf(),
            old(pool).buffer_wf(),
        ensures
            final(self).wf(),
            final(pool).buffer_wf(),
            r == min((old(pool).limit() - old(pool).items().len()) as int, old(self).completion_queue()@.len() as int),
            final(pool).items() == old(pool).items() + slot_starts(
                old(self).completion_queue()@.take(r as int),
                old(self).chunk(),
            ),
            final(self).completion_queue()@ == old(self).completion_queue()@.skip(r as int),
            final(self).fill_queue() == old(self).fill_queue(),
            final(self).completion_queue().wakeup_flag() == old(self).completion_queue().wakeup_flag(),
            final(pool).limit() == old(pool).limit(),
            final(self).geometry_eq(*old(self)),
    {
        let chunk = self.frame_headroom_size as u64 + self.frame_size as u64;
        let room = pool.free();
        let (filled, index) = self.completion_ring.peek(room);
        let mut i: u32 = 0;
        while i < filled
            invariant
                i <= filled,
                filled <= room,
                room == old(pool).limit() - old(pool).items().len(),
                filled <= self.completion_ring@.len(),
                self.completion_ring == old(self).completion_ring,
                index == self.completion_ring.head(),
                self.completion_ring.wf(),
                pool.buffer_wf(),
                pool.limit() == old(pool).limit(),
                pool.items() == old(pool).items() + slot_starts(
                    self.completion_ring@.take(i as int),
                    self.chunk(),
                ),
                chunk == self.chunk(),
                chunk > 0,
                self.frame_size == old(self).frame_size,
                self.frame_headroom_size == old(self).frame_headroom_size,
            decreases filled - i,
        {
            let addr = self.completion_ring.read(index + i);
            proof {
                lemma_slot_start(addr, chunk as nat);
            }
            let start = addr - addr % chunk;
            let _ = pool.push(start);
            i = i + 1;
            assert(pool.items() =~= old(pool).items() + slot_starts(
                self.completion_ring@.take(i as int),
                self.chunk(),
            ));
        }
        self.completion_ring.release(filled);
        filled
    }

    /// Both have the same frame geometry.
    pub open spec fn geometry_eq(&self, other: Umem) -> bool {
        &&& self.frame_size_spec() == other.frame_size_spec()
        &&& self.headroom_spec() == other.headroom_spec()
        &&& self.frame_count_spec() == other.frame_count_spec()
    }
}

} // verus!

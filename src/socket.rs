use crate::descriptor::Descriptor;
use crate::kernel::{lemma_payload_in_slot, payload_of};
use crate::ledger::{
    all_frames, desc_addrs, frame_of, frames_of, held_addrs, lemma_frames_concat, lemma_frames_slot_starts,
    lemma_frames_split, lemma_slot_start, slot_starts,
};
use crate::pool::{all_offsets, AddressPool};
use crate::ring::{RingBuffer, XdpDesc};
use crate::umem::{valid_geometry, Umem, UmemError};
use crate::util::is_pow2;
use std::collections::VecDeque;
use vstd::math::min;
use vstd::multiset::Multiset;
use vstd::prelude::*;
use vstd::string::StringSliceAdditionalSpecFns;

verus! {

/// Payload bytes per frame unless configured otherwise.
pub const DEFAULT_FRAME_SIZE: u32 = 4096;

/// Headroom bytes before each payload unless configured otherwise.
pub const DEFAULT_FRAME_HEADROOM: u32 = 0;

/// Entries per ring, and frames in the area, unless configured otherwise.
pub const DEFAULT_RING_SIZE: u32 = 2048;

/// The configuration of a socket, built with [`SocketBuilder::build`].
pub struct SocketBuilder {
    pub frame_size: u32,
    pub frame_headroom_size: u32,
    pub ring_size: u32,
    pub use_hugetlb: bool,
    pub force_zero_copy: bool,
}

impl Default for SocketBuilder {
    fn default() -> (r: SocketBuilder)
        ensures
            r.frame_size == DEFAULT_FRAME_SIZE,
            r.frame_headroom_size == DEFAULT_FRAME_HEADROOM,
            r.ring_size == DEFAULT_RING_SIZE,
            !r.use_hugetlb,
            !r.force_zero_copy,
    {
        SocketBuilder {
            frame_size: DEFAULT_FRAME_SIZE,
            frame_headroom_size: DEFAULT_FRAME_HEADROOM,
            ring_size: DEFAULT_RING_SIZE,
            use_hugetlb: false,
            force_zero_copy: false,
        }
    }
}

impl SocketBuilder {
    /// Sets up a socket for queue `queue_id` of the interface named
    /// `interface_name` with this configuration.
    pub fn build(self, interface_name: &str, queue_id: u32) -> (r: Result<Socket, SocketError>)
        ensures
            !is_pow2(self.ring_size as nat) ==> r == Err::<Socket, SocketError>(
                SocketError::Umem(UmemError::Ring(crate::ring::RingError::Size(self.ring_size))),
            ),
            is_pow2(self.ring_size as nat) && !valid_geometry(
                self.frame_size,
                self.frame_headroom_size,
            ) ==> r == Err::<Socket, SocketError>(
                SocketError::Umem(UmemError::FrameSize(self.frame_size)),
            ),
            is_pow2(self.ring_size as nat) && valid_geometry(
                self.frame_size,
                self.frame_headroom_size,
            ) && has_nul(interface_name.spec_bytes()) ==> (r matches Err(
                SocketError::InvalidInterfaceName(p),
            ) && first_nul(interface_name.spec_bytes(), p as int)),
            r is Ok <==> is_pow2(self.ring_size as nat) && valid_geometry(
                self.frame_size,
                self.frame_headroom_size,
            ) && !has_nul(interface_name.spec_bytes()),
            r matches Ok(s) ==> {
                &&& s.wf()
                &&& s.umem_spec().frame_size_spec() == self.frame_size
                &&& s.umem_spec().headroom_spec() == self.frame_headroom_size
                &&& s.frame_count_spec() == self.ring_size
                &&& s.pool_spec()@ == all_offsets(self.ring_size as nat, s.chunk())
                &&& s.umem_spec().fill_queue()@.len() == 0
                &&& s.umem_spec().completion_queue()@.len() == 0
                &&& s.rx_spec()@.len() == 0
                &&& s.tx_spec()@.len() == 0
                &&& s.frames() == all_frames(self.ring_size as nat)
                &&& s.interface_spec() == interface_name@
                &&& s.queue_spec() == queue_id
                &&& s.zero_copy_spec() == self.force_zero_copy
                &&& s.hugetlb_spec() == self.use_hugetlb
            },
    {
        Socket::init(
            self.frame_size,
            self.frame_headroom_size,
            self.ring_size,
            self.use_hugetlb,
            self.force_zero_copy,
            interface_name,
            queue_id,
        )
    }
}

/// Why a socket could not be set up.
#[derive(Debug, PartialEq, Eq, Structural)]
pub enum SocketError {
    /// The frame area or its rings were misconfigured.
    Umem(UmemError),
    /// The interface name holds a NUL byte at this position.
    InvalidInterfaceName(usize),
}

/// Whether `b` holds a NUL byte.
pub open spec fn has_nul(b: Seq<u8>) -> bool {
    exists|i: int| 0 <= i < b.len() && b[i] == 0
}

/// `p` is the position of the first NUL byte of `b`.
pub open spec fn first_nul(b: Seq<u8>, p: int) -> bool {
    &&& 0 <= p < b.len()
    &&& b[p] == 0
    &&& forall|j: int| 0 <= j < p ==> b[j] != 0
}

/// Whether the ring entry describes a payload inside a frame area of
/// `count` slots of `chunk` bytes with `headroom` bytes before each payload.
pub open spec fn payload_ok(d: XdpDesc, chunk: nat, headroom: nat, count: nat) -> bool {
    &&& (d.addr as nat) % chunk == headroom
    &&& d.addr < chunk * count
    &&& d.addr + d.len <= chunk * count
}

/// The engine of one socket bound to an interface queue: the frame area with
/// its fill and completion rings, the pool of free frame offsets, and the
/// receive and transmit rings.  The receive half (`refill`, `receive`,
/// `rx_burst`) and the transmit half (`transmit`, `reap`, `tx_burst`) share
/// the pool, so a program that runs them on two threads puts the socket
/// behind a lock.
pub struct Socket {
    pub(crate) umem: Umem,
    pub(crate) pool: AddressPool,
    pub(crate) rx_ring: RingBuffer<XdpDesc>,
    pub(crate) tx_ring: RingBuffer<XdpDesc>,
    pub(crate) interface_name: String,
    pub(crate) queue_id: u32,
    pub(crate) use_hugetlb: bool,
    pub(crate) force_zero_copy: bool,
}

impl Socket {
    pub closed spec fn umem_spec(&self) -> Umem {
        self.umem
    }

    pub closed spec fn pool_spec(&self) -> AddressPool {
        self.pool
    }

    pub closed spec fn rx_spec(&self) -> RingBuffer<XdpDesc> {
        self.rx_ring
    }

    pub closed spec fn tx_spec(&self) -> RingBuffer<XdpDesc> {
        self.tx_ring
    }

    pub closed spec fn interface_spec(&self) -> Seq<char> {
        self.interface_name@
    }

    pub closed spec fn queue_spec(&self) -> u32 {
        self.queue_id
    }

    pub closed spec fn zero_copy_spec(&self) -> bool {
        self.force_zero_copy
    }

    pub closed spec fn hugetlb_spec(&self) -> bool {
        self.use_hugetlb
    }

    pub open spec fn chunk(&self) -> nat {
        self.umem_spec().chunk()
    }

    pub open spec fn frame_count_spec(&self) -> nat {
        self.umem_spec().frame_count_spec()
    }

    /// The slots held by the pool and the four rings, with multiplicity.
    pub open spec fn frames(&self) -> Multiset<nat> {
        frames_of(self.pool_spec()@, self.chunk()).add(
            frames_of(self.umem_spec().fill_queue()@, self.chunk()),
        ).add(frames_of(self.umem_spec().completion_queue()@, self.chunk())).add(
            frames_of(desc_addrs(self.rx_spec()@), self.chunk()),
        ).add(frames_of(desc_addrs(self.tx_spec()@), self.chunk()))
    }

    /// Every entry of the receive ring describes a payload in the frame area.
    pub open spec fn rx_entries_ok(&self) -> bool {
        forall|i: int|
            0 <= i < self.rx_spec()@.len() ==> payload_ok(
                #[trigger] self.rx_spec()@[i],
                self.chunk(),
                self.umem_spec().headroom_spec(),
                self.frame_count_spec(),
            )
    }

    pub open spec fn wf(&self) -> bool {
        &&& self.umem_spec().wf()
        &&& self.pool_spec().wf()
        &&& self.pool_spec().bound() == self.frame_count_spec()
        &&& self.rx_spec().wf()
        &&& self.tx_spec().wf()
        &&& self.rx_spec().cap() == self.frame_count_spec()
        &&& self.tx_spec().cap() == self.frame_count_spec()
        &&& self.rx_spec().pending().len() == 0
        &&& self.tx_spec().pending().len() == 0
        &&& self.rx_entries_ok()
        &&& self.pool_slot_starts()
    }

    /// Every offset in the pool is the start of a slot.
    pub open spec fn pool_slot_starts(&self) -> bool {
        forall|i: int|
            0 <= i < self.pool_spec()@.len() ==> (#[trigger] self.pool_spec()@[i] as nat)
                % self.chunk() == 0
    }

    /// Sets up the frame area, its rings and the pool, which starts with every
    /// frame offset.  The ring size is checked first, then the frame size,
    /// then the interface name.
    pub fn init(
        frame_size: u32,
        frame_headroom_size: u32,
        ring_size: u32,
        use_hugetlb: bool,
        force_zero_copy: bool,
        interface_name: &str,
        queue_id: u32,
    ) -> (r: Result<Socket, SocketError>)
        ensures
            !is_pow2(ring_size as nat) ==> r == Err::<Socket, SocketError>(
                SocketError::Umem(UmemError::Ring(crate::ring::RingError::Size(ring_size))),
            ),
            is_pow2(ring_size as nat) && !valid_geometry(frame_size, frame_headroom_size) ==> r
                == Err::<Socket, SocketError>(SocketError::Umem(UmemError::FrameSize(frame_size))),
            is_pow2(ring_size as nat) && valid_geometry(frame_size, frame_headroom_size) && has_nul(
                interface_name.spec_bytes(),
            ) ==> (r matches Err(SocketError::InvalidInterfaceName(p)) && first_nul(
                interface_name.spec_bytes(),
                p as int,
            )),
            r is Ok <==> is_pow2(ring_size as nat) && valid_geometry(frame_size, frame_headroom_size)
                && !has_nul(interface_name.spec_bytes()),
            r matches Ok(s) ==> {
                &&& s.wf()
                &&& s.umem_spec().frame_size_spec() == frame_size
                &&& s.umem_spec().headroom_spec() == frame_headroom_size
                &&& s.frame_count_spec() == ring_size
                &&& s.pool_spec()@ == all_offsets(ring_size as nat, s.chunk())
                &&& s.umem_spec().fill_queue()@.len() == 0
                &&& s.umem_spec().completion_queue()@.len() == 0
                &&& s.rx_spec()@.len() == 0
                &&& s.tx_spec()@.len() == 0
                &&& s.frames() == all_frames(ring_size as nat)
                &&& s.interface_spec() == interface_name@
                &&& s.queue_spec() == queue_id
                &&& s.zero_copy_spec() == force_zero_copy
                &&& s.hugetlb_spec() == use_hugetlb
            },
    {
        let made = Umem::new(frame_size, frame_headroom_size, ring_size);
        let umem = match made {
            Ok(u) => u,
            Err(e) => {
                return Err(SocketError::Umem(e));
            },
        };
        assert(is_pow2(ring_size as nat) && valid_geometry(frame_size, frame_headroom_size));
        let bytes = interface_name.as_bytes();
        let mut i: usize = 0;
        while i < bytes.len()
            invariant
                bytes@ == interface_name.spec_bytes(),
                i <= bytes@.len(),
                is_pow2(ring_size as nat),
                valid_geometry(frame_size, frame_headroom_size),
                forall|j: int| 0 <= j < i ==> bytes@[j] != 0,
            decreases bytes@.len() - i,
        {
            if bytes[i] == 0 {
                return Err(SocketError::InvalidInterfaceName(i));
            }
            i = i + 1;
        }
        let rx_ring = match RingBuffer::<XdpDesc>::new(ring_size, XdpDesc { addr: 0, len: 0 }) {
            Ok(ring) => ring,
            Err(e) => {
                return Err(SocketError::Umem(UmemError::Ring(e)));
            },
        };
        let tx_ring = match RingBuffer::<XdpDesc>::new(ring_size, XdpDesc { addr: 0, len: 0 }) {
            Ok(ring) => ring,
            Err(e) => {
                return Err(SocketError::Umem(UmemError::Ring(e)));
            },
        };
        let chunk = frame_headroom_size + frame_size;
        let pool = AddressPool::new(ring_size, chunk);
        let s = Socket {
            umem,
            pool,
            rx_ring,
            tx_ring,
            interface_name: interface_name.to_owned(),
            queue_id,
            use_hugetlb,
            force_zero_copy,
        };
        proof {
            assert((ring_size as nat) * (chunk as nat) <= 0x8000_0000 * (u32::MAX as nat))
                by (nonlinear_arith)
                requires
                    ring_size <= 0x8000_0000,
                    chunk <= u32::MAX,
            ;
            lemma_all_offsets_frames(ring_size as nat, chunk as nat);
            assert forall|k: int| 0 <= k < s.pool@.len() implies (#[trigger] s.pool@[k] as nat)
                % (chunk as nat) == 0 by {
                assert(k * chunk <= (ring_size as nat) * (chunk as nat)) by (nonlinear_arith)
                    requires
                        0 <= k < ring_size,
                ;
                vstd::arithmetic::div_mod::lemma_mod_multiples_basic(k, chunk as int);
            }
            let f = |a: u64| crate::ledger::frame_of(a, chunk as nat);
            Seq::<u64>::empty().map_values(f).to_multiset_ensures();
            assert(Seq::<u64>::empty().map_values(f) =~= Seq::<nat>::empty());
            assert(desc_addrs(s.rx_ring@) =~= Seq::<u64>::empty());
            assert(desc_addrs(s.tx_ring@) =~= Seq::<u64>::empty());
            assert(s.umem.fill_queue()@ =~= Seq::<u64>::empty());
            assert(s.umem.completion_queue()@ =~= Seq::<u64>::empty());
            assert(frames_of(Seq::<u64>::empty(), chunk as nat) =~= Multiset::empty());
            assert(s.frames() =~= all_frames(ring_size as nat));
        }
        Ok(s)
    }

    pub fn umem(&self) -> (r: &Umem)
        ensures
            *r == self.umem_spec(),
    {
        &self.umem
    }

    /// The number of free frame offsets in the pool.
    pub fn pool_len(&self) -> (r: u32)
        requires
            self.wf(),
        ensures
            r == self.pool_spec()@.len(),
    {
        self.pool.len()
    }

    /// The number of addresses waiting in the fill ring for the kernel.
    pub fn fill_ring_len(&self) -> (r: u32)
        requires
            self.wf(),
        ensures
            r == self.umem_spec().fill_queue()@.len(),
    {
        self.umem.fill_ring_len()
    }

    /// The number of completed addresses waiting to return to the pool.
    pub fn completion_ring_len(&self) -> (r: u32)
        requires
            self.wf(),
        ensures
            r == self.umem_spec().completion_queue()@.len(),
    {
        self.umem.completion_ring_len()
    }

    /// The number of received frames waiting to be taken.
    pub fn rx_ring_len(&self) -> (r: u32)
        requires
            self.wf(),
        ensures
            r == self.rx_spec()@.len(),
    {
        self.rx_ring.len()
    }

    /// The number of frames waiting for the kernel to send them.
    pub fn tx_ring_len(&self) -> (r: u32)
        requires
            self.wf(),
        ensures
            r == self.tx_spec()@.len(),
    {
        self.tx_ring.len()
    }

    pub fn interface_name(&self) -> (r: &str)
        ensures
            r@ == self.interface_spec(),
    {
        self.interface_name.as_str()
    }

    pub fn queue_id(&self) -> (r: u32)
        ensures
            r == self.queue_spec(),
    {
        self.queue_id
    }

    pub fn force_zero_copy(&self) -> (r: bool)
        ensures
            r == self.zero_copy_spec(),
    {
        self.force_zero_copy
    }

    pub fn use_hugetlb(&self) -> (r: bool)
        ensures
            r == self.hugetlb_spec(),
    {
        self.use_hugetlb
    }

    /// Whether the kernel wants a wakeup to notice new fill entries.
    pub fn needs_wakeup(&self) -> (r: bool)
        ensures
            r == self.umem_spec().fill_queue().wakeup_flag(),
    {
        self.umem.needs_wakeup()
    }

    /// Whether the kernel wants a wakeup to notice new transmit entries.
    pub fn tx_needs_wakeup(&self) -> (r: bool)
        ensures
            r == self.tx_spec().wakeup_flag(),
    {
        self.tx_ring.needs_wakeup()
    }

    /// Posts free frames from the pool to the fill ring, as many as fit, and
    /// says whether the kernel must be woken up to notice them.
    pub fn refill(&mut self) -> (wake: bool)
        requires
            old(self).wf(),
        ensures
            final(self).wf(),
            wake == old(self).umem_spec().fill_queue().wakeup_flag(),
            final(self).frames() == old(self).frames(),
            final(self).rx_spec() == old(self).rx_spec(),
            final(self).tx_spec() == old(self).tx_spec(),
            final(self).umem_spec().completion_queue() == old(self).umem_spec().completion_queue(),
            final(self).same_config(*old(self)),
            ({
                let moved = min(
                    old(self).pool_spec()@.len() as int,
                    old(self).umem_spec().fill_queue().free_spec() as int,
                );
                &&& final(self).pool_spec()@ == old(self).pool_spec()@.skip(moved)
                &&& final(self).umem_spec().fill_queue()@ == old(self).umem_spec().fill_queue()@
                    + old(self).pool_spec()@.take(moved)
            }),
    {
        let moved = self.umem.fill(&mut self.pool);
        proof {
            let c = self.chunk();
            lemma_frames_split(old(self).pool@, moved as int, c);
            lemma_frames_concat(old(self).umem.fill_queue()@, old(self).pool@.take(moved as int), c);
            assert(self.frames() =~= old(self).frames());
        }
        self.umem.needs_wakeup()
    }

    /// Takes up to `max` received frames off the receive ring, oldest first,
    /// and appends them to `out`; `max` is the room the caller has in `out`,
    /// so nothing is released from the ring that `out` cannot take.  Returns
    /// how many were taken.
    pub fn receive(&mut self, out: &mut VecDeque<Descriptor>, max: u32) -> (n: u32)
        requires
            old(self).wf(),
        ensures
            final(self).wf(),
            n == min(max as int, old(self).rx_spec()@.len() as int),
            final(self).rx_spec()@ == old(self).rx_spec()@.skip(n as int),
            final(out)@.len() == old(out)@.len() + n,
            final(out)@.take(old(out)@.len() as int) == old(out)@,
            forall|i: int|
                0 <= i < n ==> {
                    &&& (#[trigger] final(out)@[old(out)@.len() + i]).address_spec()
                        == old(self).rx_spec()@[i].addr
                    &&& final(out)@[old(out)@.len() + i].length_spec()
                        == old(self).rx_spec()@[i].len
                },
            held_addrs(final(out)@) == held_addrs(old(out)@) + desc_addrs(
                old(self).rx_spec()@.take(n as int),
            ),
            final(self).frames().add(frames_of(held_addrs(final(out)@), final(self).chunk()))
                == old(self).frames().add(frames_of(held_addrs(old(out)@), old(self).chunk())),
            forall|i: int|
                old(out)@.len() <= i < final(out)@.len() ==> {
                    &&& (#[trigger] final(out)@[i]).address_spec() as nat % final(self).chunk()
                        == final(self).umem_spec().headroom_spec()
                    &&& final(out)@[i].address_spec() < final(self).umem_spec().length_spec()
                    &&& final(out)@[i].address_spec() + final(out)@[i].length_spec()
                        <= final(self).umem_spec().length_spec()
                },
            n == 0 ==> *final(self) == *old(self),
            final(self).pool_spec() == old(self).pool_spec(),
            final(self).umem_spec() == old(self).umem_spec(),
            final(self).tx_spec() == old(self).tx_spec(),
            final(self).same_config(*old(self)),
    {
        let (filled, index) = self.rx_ring.peek(max);
        if filled == 0 {
            assert(old(self).rx_ring@.skip(0) =~= old(self).rx_ring@);
            assert(held_addrs(out@) =~= held_addrs(out@) + desc_addrs(
                old(self).rx_ring@.take(0),
            ));
            assert(out@.take(out@.len() as int) =~= out@);
            return 0;
        }
        let mut i: u32 = 0;
        while i < filled
            invariant
                i <= filled,
                filled <= self.rx_ring@.len(),
                self.rx_ring == old(self).rx_ring,
                self.rx_ring.wf(),
                index == self.rx_ring.head(),
                out@.len() == old(out)@.len() + i,
                out@.take(old(out)@.len() as int) == old(out)@,
                forall|k: int|
                    0 <= k < i ==> {
                        &&& (#[trigger] out@[old(out)@.len() + k]).address_spec()
                            == old(self).rx_ring@[k].addr
                        &&& out@[old(out)@.len() + k].length_spec() == old(self).rx_ring@[k].len
                    },
            decreases filled - i,
        {
            let desc = self.rx_ring.read(index + i);
            let ghost prev = out@;
            out.push_back(Descriptor::from_desc(desc));
            proof {
                assert(out@.take(old(out)@.len() as int) =~= prev.take(old(out)@.len() as int));
                assert forall|k: int| 0 <= k < i + 1 implies {
                    &&& (#[trigger] out@[old(out)@.len() + k]).address_spec()
                        == old(self).rx_ring@[k].addr
                    &&& out@[old(out)@.len() + k].length_spec() == old(self).rx_ring@[k].len
                } by {
                    if k < i {
                        assert(out@[old(out)@.len() + k] == prev[old(out)@.len() + k]);
                    }
                }
            }
            i = i + 1;
        }
        self.rx_ring.release(filled);
        proof {
            let c = self.chunk();
            let taken = old(self).rx_ring@.take(filled as int);
            assert(held_addrs(out@) =~= held_addrs(old(out)@) + desc_addrs(taken)) by {
                assert forall|k: int| 0 <= k < held_addrs(out@).len() implies held_addrs(out@)[k]
                    == (held_addrs(old(out)@) + desc_addrs(taken))[k] by {
                    if k < old(out)@.len() {
                        assert(out@[k] == out@.take(old(out)@.len() as int)[k]);
                    } else {
                        assert(out@[old(out)@.len() + (k - old(out)@.len())] == out@[k]);
                    }
                }
            }
            assert(desc_addrs(old(self).rx_ring@) =~= desc_addrs(taken) + desc_addrs(
                self.rx_ring@,
            ));
            lemma_frames_concat(desc_addrs(taken), desc_addrs(self.rx_ring@), c);
            lemma_frames_concat(held_addrs(old(out)@), desc_addrs(taken), c);
            assert(self.frames().add(frames_of(held_addrs(out@), c)) =~= old(self).frames().add(
                frames_of(held_addrs(old(out)@), c),
            ));
            assert forall|k: int| old(out)@.len() <= k < out@.len() implies {
                &&& (#[trigger] out@[k]).address_spec() as nat % c == self.umem.headroom_spec()
                &&& out@[k].address_spec() < self.umem.length_spec()
                &&& out@[k].address_spec() + out@[k].length_spec() <= self.umem.length_spec()
            } by {
                let j = k - old(out)@.len();
                assert(out@[old(out)@.len() + j] == out@[k]);
                assert(payload_ok(
                    old(self).rx_ring@[j],
                    c,
                    self.umem.headroom_spec(),
                    self.frame_count_spec(),
                ));
            }
            assert forall|k: int| 0 <= k < self.rx_ring@.len() implies payload_ok(
                #[trigger] self.rx_ring@[k],
                c,
                self.umem.headroom_spec(),
                self.frame_count_spec(),
            ) by {
                assert(self.rx_ring@[k] == old(self).rx_ring@[k + filled]);
            }
        }
        filled
    }

    /// One receive burst: refill the fill ring from the pool, then take up to
    /// `max` received frames into `out`.  Returns how many were taken.  A
    /// caller whose kernel wants wakeups calls `refill`, wakes the kernel, and
    /// then calls `receive`.
    pub fn rx_burst(&mut self, out: &mut VecDeque<Descriptor>, max: u32) -> (n: u32)
        requires
            old(self).wf(),
        ensures
            final(self).wf(),
            n == min(max as int, old(self).rx_spec()@.len() as int),
            final(self).rx_spec()@ == old(self).rx_spec()@.skip(n as int),
            final(out)@.len() == old(out)@.len() + n,
            final(out)@.take(old(out)@.len() as int) == old(out)@,
            forall|i: int|
                0 <= i < n ==> {
                    &&& (#[trigger] final(out)@[old(out)@.len() + i]).address_spec()
                        == old(self).rx_spec()@[i].addr
                    &&& final(out)@[old(out)@.len() + i].length_spec()
                        == old(self).rx_spec()@[i].len
                },
            held_addrs(final(out)@) == held_addrs(old(out)@) + desc_addrs(
                old(self).rx_spec()@.take(n as int),
            ),
            final(self).frames().add(frames_of(held_addrs(final(out)@), final(self).chunk()))
                == old(self).frames().add(frames_of(held_addrs(old(out)@), old(self).chunk())),
            ({
                let moved = min(
                    old(self).pool_spec()@.len() as int,
                    old(self).umem_spec().fill_queue().free_spec() as int,
                );
                &&& final(self).pool_spec()@ == old(self).pool_spec()@.skip(moved)
                &&& final(self).umem_spec().fill_queue()@ == old(self).umem_spec().fill_queue()@
                    + old(self).pool_spec()@.take(moved)
            }),
            forall|i: int|
                old(out)@.len() <= i < final(out)@.len() ==> {
                    &&& (#[trigger] final(out)@[i]).address_spec() as nat % final(self).chunk()
                        == final(self).umem_spec().headroom_spec()
                    &&& final(out)@[i].address_spec() < final(self).umem_spec().length_spec()
                    &&& final(out)@[i].address_spec() + final(out)@[i].length_spec()
                        <= final(self).umem_spec().length_spec()
                },
            final(self).tx_spec() == old(self).tx_spec(),
            final(self).same_config(*old(self)),
    {
        self.refill();
        self.receive(out, max)
    }

    /// Puts as many descriptors from the front of `input` on the transmit
    /// ring as it has room for, oldest first, and returns how many.
    pub fn transmit(&mut self, input: &mut VecDeque<Descriptor>) -> (n: u32)
        requires
            old(self).wf(),
        ensures
            final(self).wf(),
            n == min(old(input)@.len() as int, old(self).tx_spec().free_spec() as int),
            final(input)@ == old(input)@.skip(n as int),
            desc_addrs(final(self).tx_spec()@) == desc_addrs(old(self).tx_spec()@) + held_addrs(
                old(input)@.take(n as int),
            ),
            final(self).tx_spec()@.len() == old(self).tx_spec()@.len() + n,
            final(self).tx_spec()@.take(old(self).tx_spec()@.len() as int) == old(self).tx_spec()@,
            forall|i: int|
                0 <= i < n ==> {
                    &&& (#[trigger] final(self).tx_spec()@[old(self).tx_spec()@.len() + i]).addr
                        == old(input)@[i].address_spec()
                    &&& final(self).tx_spec()@[old(self).tx_spec()@.len() + i].len
                        == old(input)@[i].length_spec()
                },
            final(self).frames().add(frames_of(held_addrs(final(input)@), final(self).chunk()))
                == old(self).frames().add(frames_of(held_addrs(old(input)@), old(self).chunk())),
            n == 0 ==> *final(self) == *old(self),
            final(self).pool_spec() == old(self).pool_spec(),
            final(self).umem_spec() == old(self).umem_spec(),
            final(self).rx_spec() == old(self).rx_spec(),
            final(self).same_config(*old(self)),
    {
        let len = input.len();
        let want: u32 = if len > u32::MAX as usize {
            u32::MAX
        } else {
            len as u32
        };
        let free = self.tx_ring.free_slots();
        if want == 0 || free == 0 {
            assert(old(input)@.skip(0) =~= old(input)@);
            assert(desc_addrs(self.tx_ring@) =~= desc_addrs(self.tx_ring@) + held_addrs(
                old(input)@.take(0),
            ));
            return 0;
        }
        let (granted, index) = self.tx_ring.reserve(want);
        let mut i: u32 = 0;
        while i < granted
            invariant
                i <= granted,
                granted <= old(input)@.len(),
                self.tx_ring.wf(),
                self.tx_ring@ == old(self).tx_ring@,
                self.tx_ring.head() == old(self).tx_ring.head(),
                self.tx_ring.cap() == old(self).tx_ring.cap(),
                self.tx_ring.wakeup_flag() == old(self).tx_ring.wakeup_flag(),
                index == self.tx_ring.head() + self.tx_ring@.len(),
                self.tx_ring.pending().len() == granted,
                input@ == old(input)@.skip(i as int),
                self.umem == old(self).umem,
                self.pool == old(self).pool,
                self.rx_ring == old(self).rx_ring,
                self.interface_name == old(self).interface_name,
                self.queue_id == old(self).queue_id,
                self.use_hugetlb == old(self).use_hugetlb,
                self.force_zero_copy == old(self).force_zero_copy,
                forall|k: int|
                    0 <= k < i ==> {
                        &&& (#[trigger] self.tx_ring.pending()[k]).addr
                            == old(input)@[k].address_spec()
                        &&& self.tx_ring.pending()[k].len == old(input)@[k].length_spec()
                    },
            decreases granted - i,
        {
            let d = input.pop_front().unwrap();
            let ghost before = self.tx_ring.pending();
            self.tx_ring.write(index + i, d.to_desc());
            proof {
                assert forall|k: int| 0 <= k < i + 1 implies {
                    &&& (#[trigger] self.tx_ring.pending()[k]).addr
                        == old(input)@[k].address_spec()
                    &&& self.tx_ring.pending()[k].len == old(input)@[k].length_spec()
                } by {
                    if k < i {
                        assert(self.tx_ring.pending()[k] == before[k]);
                    }
                }
            }
            i = i + 1;
            assert(input@ =~= old(input)@.skip(i as int));
        }
        let ghost pending = self.tx_ring.pending();
        self.tx_ring.submit(granted);
        proof {
            let c = self.chunk();
            let taken = old(input)@.take(granted as int);
            assert(pending.take(granted as int) =~= pending);
            assert(self.tx_ring.pending() =~= Seq::<XdpDesc>::empty());
            assert(desc_addrs(self.tx_ring@) =~= desc_addrs(old(self).tx_ring@) + held_addrs(
                taken,
            ));
            assert forall|k: int| 0 <= k < granted implies {
                &&& (#[trigger] self.tx_ring@[old(self).tx_ring@.len() + k]).addr
                    == old(input)@[k].address_spec()
                &&& self.tx_ring@[old(self).tx_ring@.len() + k].len == old(input)@[k].length_spec()
            } by {
                assert(self.tx_ring@[old(self).tx_ring@.len() + k] == pending[k]);
            }
            assert(held_addrs(old(input)@) =~= held_addrs(taken) + held_addrs(input@));
            lemma_frames_concat(held_addrs(taken), held_addrs(input@), c);
            lemma_frames_concat(desc_addrs(old(self).tx_ring@), held_addrs(taken), c);
            assert(self.frames().add(frames_of(held_addrs(input@), c)) =~= old(self).frames().add(
                frames_of(held_addrs(old(input)@), c),
            ));
        }
        granted
    }

    /// Returns completed frames to the pool, as many as it has room for.
    pub fn reap(&mut self) -> (n: u32)
        requires
            old(self).wf(),
        ensures
            final(self).wf(),
            n == min(
                (old(self).pool_spec().bound() - old(self).pool_spec()@.len()) as int,
                old(self).umem_spec().completion_queue()@.len() as int,
            ),
            final(self).pool_spec()@ == old(self).pool_spec()@ + slot_starts(
                old(self).umem_spec().completion_queue()@.take(n as int),
                old(self).chunk(),
            ),
            final(self).umem_spec().completion_queue()@ == old(
                self,
            ).umem_spec().completion_queue()@.skip(n as int),
            final(self).umem_spec().fill_queue() == old(self).umem_spec().fill_queue(),
            final(self).frames() == old(self).frames(),
            final(self).rx_spec() == old(self).rx_spec(),
            final(self).tx_spec() == old(self).tx_spec(),
            final(self).same_config(*old(self)),
    {
        let n = self.umem.complete(&mut self.pool);
        proof {
            let c = self.chunk();
            lemma_frames_split(old(self).umem.completion_queue()@, n as int, c);
            let back = old(self).umem.completion_queue()@.take(n as int);
            lemma_frames_slot_starts(back, c);
            lemma_frames_concat(old(self).pool@, slot_starts(back, c), c);
            assert forall|k: int| 0 <= k < self.pool@.len() implies (#[trigger] self.pool@[k] as nat)
                % c == 0 by {
                if k >= old(self).pool@.len() {
                    let j = k - old(self).pool@.len();
                    lemma_slot_start(back[j], c);
                }
            }
            assert(self.frames() =~= old(self).frames());
        }
        n
    }

    /// One transmit burst: put descriptors from `input` on the transmit ring,
    /// then return completed frames to the pool.  Returns how many
    /// descriptors went on the ring.  A caller whose kernel wants wakeups
    /// calls `transmit`, wakes the kernel, and then calls `reap`.
    pub fn tx_burst(&mut self, input: &mut VecDeque<Descriptor>) -> (n: u32)
        requires
            old(self).wf(),
        ensures
            final(self).wf(),
            n == min(old(input)@.len() as int, old(self).tx_spec().free_spec() as int),
            final(input)@ == old(input)@.skip(n as int),
            final(self).tx_spec()@.len() == old(self).tx_spec()@.len() + n,
            final(self).tx_spec()@.take(old(self).tx_spec()@.len() as int) == old(self).tx_spec()@,
            forall|i: int|
                0 <= i < n ==> {
                    &&& (#[trigger] final(self).tx_spec()@[old(self).tx_spec()@.len() + i]).addr
                        == old(input)@[i].address_spec()
                    &&& final(self).tx_spec()@[old(self).tx_spec()@.len() + i].len
                        == old(input)@[i].length_spec()
                },
            desc_addrs(final(self).tx_spec()@) == desc_addrs(old(self).tx_spec()@) + held_addrs(
                old(input)@.take(n as int),
            ),
            final(self).frames().add(frames_of(held_addrs(final(input)@), final(self).chunk()))
                == old(self).frames().add(frames_of(held_addrs(old(input)@), old(self).chunk())),
            ({
                let back = min(
                    (old(self).pool_spec().bound() - old(self).pool_spec()@.len()) as int,
                    old(self).umem_spec().completion_queue()@.len() as int,
                );
                &&& final(self).pool_spec()@ == old(self).pool_spec()@ + slot_starts(
                    old(self).umem_spec().completion_queue()@.take(back),
                    old(self).chunk(),
                )
                &&& final(self).umem_spec().completion_queue()@ == old(
                    self,
                ).umem_spec().completion_queue()@.skip(back)
            }),
            final(self).rx_spec() == old(self).rx_spec(),
            final(self).same_config(*old(self)),
    {
        let n = self.transmit(input);
        self.reap();
        n
    }

    /// Both have the same geometry and binding.
    pub open spec fn same_config(&self, other: Socket) -> bool {
        &&& self.umem_spec().geometry_eq(other.umem_spec())
        &&& self.pool_spec().bound() == other.pool_spec().bound()
        &&& self.rx_spec().cap() == other.rx_spec().cap()
        &&& self.tx_spec().cap() == other.tx_spec().cap()
        &&& self.interface_spec() == other.interface_spec()
        &&& self.queue_spec() == other.queue_spec()
        &&& self.zero_copy_spec() == other.zero_copy_spec()
        &&& self.hugetlb_spec() == other.hugetlb_spec()
    }
}

/// The kernel side of the rings, as a loopback device drives them.
impl Socket {
    /// Kernel side: a frame of `len` bytes arrives on the queue.  The kernel
    /// takes the oldest fill entry, puts the frame past the headroom of that
    /// slot, and publishes it on the receive ring.  Nothing happens, and
    /// `false` comes back, when the fill ring is empty, the receive ring is
    /// full, the frame does not fit in a slot, or the fill entry lies outside
    /// the frame area.
    pub fn deliver(&mut self, len: u32) -> (r: bool)
        requires
            old(self).wf(),
        ensures
            final(self).wf(),
            final(self).frames() == old(self).frames(),
            r <==> {
                &&& old(self).umem_spec().fill_queue()@.len() > 0
                &&& old(self).rx_spec().free_spec() > 0
                &&& len <= old(self).umem_spec().frame_size_spec()
                &&& old(self).umem_spec().fill_queue()@[0] < old(self).umem_spec().length_spec()
            },
            !r ==> *final(self) == *old(self),
            r ==> {
                let addr = old(self).umem_spec().fill_queue()@[0];
                let d = XdpDesc {
                    addr: payload_of(
                        addr,
                        old(self).chunk(),
                        old(self).umem_spec().headroom_spec(),
                    ) as u64,
                    len,
                };
                &&& final(self).umem_spec().fill_queue()@ == old(
                    self,
                ).umem_spec().fill_queue()@.drop_first()
                &&& final(self).rx_spec()@ == old(self).rx_spec()@.push(d)
                &&& payload_ok(
                    d,
                    old(self).chunk(),
                    old(self).umem_spec().headroom_spec(),
                    old(self).frame_count_spec(),
                )
            },
            final(self).pool_spec() == old(self).pool_spec(),
            final(self).tx_spec() == old(self).tx_spec(),
            final(self).umem_spec().completion_queue() == old(self).umem_spec().completion_queue(),
            final(self).same_config(*old(self)),
    {
        if self.umem.fill_ring.len() == 0 || self.rx_ring.free_slots() == 0 || len
            > self.umem.frame_size() {
            return false;
        }
        let (_, index) = self.umem.fill_ring.peek(1);
        let addr = self.umem.fill_ring.read(index);
        let length = self.umem.length();
        if addr >= length {
            return false;
        }
        let chunk = self.umem.frame_headroom_size() as u64 + self.umem.frame_size() as u64;
        let headroom = self.umem.frame_headroom_size() as u64;
        proof {
            lemma_payload_in_slot(
                addr,
                chunk as nat,
                headroom as nat,
                self.frame_count_spec(),
                len as nat,
            );
        }
        assert(self.umem.length_spec() == chunk * self.frame_count_spec());
        assert(payload_of(addr, chunk as nat, headroom as nat) <= length);
        let payload = (addr - addr % chunk) + headroom;
        let d = XdpDesc { addr: payload, len };
        let (_, at) = self.rx_ring.reserve(1);
        self.rx_ring.write(at, d);
        let ghost pending = self.rx_ring.pending();
        self.rx_ring.submit(1);
        self.umem.fill_ring.release(1);
        proof {
            let c = self.chunk();
            let old_fill = old(self).umem.fill_queue()@;
            assert(pending.take(1) =~= seq![d]);
            assert(self.rx_ring.pending() =~= Seq::<XdpDesc>::empty());
            lemma_frames_split(old_fill, 1, c);
            assert(old_fill.skip(1) =~= old_fill.drop_first());
            assert(old_fill.take(1) =~= seq![addr]);
            assert(desc_addrs(self.rx_ring@) =~= desc_addrs(old(self).rx_ring@) + seq![payload]);
            lemma_frames_concat(desc_addrs(old(self).rx_ring@), seq![payload], c);
            let f = |a: u64| frame_of(a, c);
            assert(seq![addr].map_values(f) =~= seq![payload].map_values(f));
            assert(frames_of(seq![addr], c) == frames_of(seq![payload], c));
            assert(self.frames() =~= old(self).frames());
            assert forall|i: int| 0 <= i < self.rx_ring@.len() implies payload_ok(
                #[trigger] self.rx_ring@[i],
                c,
                self.umem.headroom_spec(),
                self.frame_count_spec(),
            ) by {
                if i < old(self).rx_ring@.len() {
                    assert(self.rx_ring@[i] == old(self).rx_ring@[i]);
                }
            }
        }
        true
    }

    /// Kernel side: sends what waits on the transmit ring, as far as the
    /// completion ring has room, and reports each sent frame's address on the
    /// completion ring.  Returns how many were sent.
    pub fn complete_tx(&mut self) -> (n: u32)
        requires
            old(self).wf(),
        ensures
            final(self).wf(),
            final(self).frames() == old(self).frames(),
            n == min(
                old(self).tx_spec()@.len() as int,
                old(self).umem_spec().completion_queue().free_spec() as int,
            ),
            final(self).tx_spec()@ == old(self).tx_spec()@.skip(n as int),
            final(self).umem_spec().completion_queue()@ == old(self).umem_spec().completion_queue()@
                + desc_addrs(old(self).tx_spec()@.take(n as int)),
            final(self).pool_spec() == old(self).pool_spec(),
            final(self).rx_spec() == old(self).rx_spec(),
            final(self).umem_spec().fill_queue() == old(self).umem_spec().fill_queue(),
            final(self).same_config(*old(self)),
    {
        let room = self.umem.completion_ring.free_slots();
        let (count, from) = self.tx_ring.peek(room);
        let (_, to) = self.umem.completion_ring.reserve(count);
        let mut i: u32 = 0;
        while i < count
            invariant
                i <= count,
                count <= self.tx_ring@.len(),
                count <= room,
                room == old(self).umem.completion_ring.free_spec(),
                self.tx_ring == old(self).tx_ring,
                self.tx_ring.wf(),
                from == self.tx_ring.head(),
                self.umem.completion_ring.wf(),
                self.umem.completion_ring@ == old(self).umem.completion_ring@,
                self.umem.completion_ring.head() == old(self).umem.completion_ring.head(),
                self.umem.completion_ring.cap() == old(self).umem.completion_ring.cap(),
                self.umem.completion_ring.wakeup_flag()
                    == old(self).umem.completion_ring.wakeup_flag(),
                to == self.umem.completion_ring.head() + self.umem.completion_ring@.len(),
                self.umem.completion_ring.pending().len() == count,
                self.umem.completion_ring.pending().take(i as int) == desc_addrs(
                    self.tx_ring@.take(i as int),
                ),
                self.umem.fill_ring == old(self).umem.fill_ring,
                self.umem.geometry_eq(old(self).umem),
                self.pool == old(self).pool,
                self.rx_ring == old(self).rx_ring,
                self.same_config(*old(self)),
            decreases count - i,
        {
            let d = self.tx_ring.read(from + i);
            let ghost before = self.umem.completion_ring.pending();
            self.umem.completion_ring.write(to + i, d.addr);
            proof {
                let p = self.umem.completion_ring.pending();
                assert(d == self.tx_ring@[i as int]);
                assert forall|k: int| 0 <= k < i + 1 implies #[trigger] p.take(i + 1)[k] == desc_addrs(
                    self.tx_ring@.take(i + 1),
                )[k] by {
                    if k < i {
                        assert(before.take(i as int)[k] == desc_addrs(
                            self.tx_ring@.take(i as int),
                        )[k]);
                    }
                }
                assert(p.take(i + 1) =~= desc_addrs(self.tx_ring@.take(i + 1)));
            }
            i = i + 1;
        }
        let ghost pending = self.umem.completion_ring.pending();
        self.umem.completion_ring.submit(count);
        self.tx_ring.release(count);
        proof {
            let c = self.chunk();
            let taken = old(self).tx_ring@.take(count as int);
            assert(pending.take(count as int) =~= pending);
            assert(self.umem.completion_ring.pending() =~= Seq::<u64>::empty());
            assert(desc_addrs(old(self).tx_ring@) =~= desc_addrs(taken) + desc_addrs(
                self.tx_ring@,
            ));
            lemma_frames_concat(desc_addrs(taken), desc_addrs(self.tx_ring@), c);
            lemma_frames_concat(old(self).umem.completion_queue()@, desc_addrs(taken), c);
            assert(self.frames() =~= old(self).frames());
        }
        count
    }

    /// Kernel side: asks, or stops asking, for wakeups on the fill ring and
    /// on the transmit ring.
    pub fn set_wakeup(&mut self, fill: bool, tx: bool)
        requires
            old(self).wf(),
        ensures
            final(self).wf(),
            final(self).umem_spec().fill_queue().wakeup_flag() == fill,
            final(self).tx_spec().wakeup_flag() == tx,
            final(self).umem_spec().fill_queue()@ == old(self).umem_spec().fill_queue()@,
            final(self).umem_spec().completion_queue() == old(self).umem_spec().completion_queue(),
            final(self).tx_spec()@ == old(self).tx_spec()@,
            final(self).rx_spec() == old(self).rx_spec(),
            final(self).pool_spec() == old(self).pool_spec(),
            final(self).frames() == old(self).frames(),
            final(self).same_config(*old(self)),
    {
        self.umem.fill_ring.set_needs_wakeup(fill);
        self.tx_ring.set_needs_wakeup(tx);
    }
}

/// The pool's starting offsets name every slot once.
proof fn lemma_all_offsets_frames(count: nat, chunk: nat)
    requires
        chunk > 0,
        count * chunk <= u64::MAX,
    ensures
        frames_of(all_offsets(count, chunk), chunk) == all_frames(count),
    decreases count,
{
    let f = |a: u64| crate::ledger::frame_of(a, chunk);
    if count == 0 {
        all_offsets(0, chunk).map_values(f).to_multiset_ensures();
        assert(all_offsets(0, chunk).map_values(f) =~= Seq::<nat>::empty());
        assert(frames_of(all_offsets(0, chunk), chunk) =~= Multiset::empty());
    } else {
        let k = (count - 1) as nat;
        assert(k * chunk <= count * chunk) by (nonlinear_arith)
            requires
                k <= count,
        ;
        lemma_all_offsets_frames(k, chunk);
        let last = (k * chunk) as u64;
        assert(last as nat == k * chunk);
        assert(all_offsets(count, chunk) =~= all_offsets(k, chunk).push(last));
        vstd::arithmetic::div_mod::lemma_div_multiples_vanish(k as int, chunk as int);
        assert((k * chunk) as int == chunk as int * k as int) by (nonlinear_arith);
        assert(f(last) == k);
        assert(all_offsets(count, chunk).map_values(f) =~= all_offsets(k, chunk).map_values(
            f,
        ).push(k));
        all_offsets(k, chunk).map_values(f).to_multiset_ensures();
        assert(frames_of(all_offsets(count, chunk), chunk) == frames_of(
            all_offsets(k, chunk),
            chunk,
        ).insert(k));
    }
}

} // verus!

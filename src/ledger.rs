use crate::descriptor::Descriptor;
use crate::ring::XdpDesc;
use vstd::multiset::Multiset;
use vstd::prelude::*;

verus! {

/// The slot that address `addr` falls in, when slots are `chunk` bytes long.
pub open spec fn frame_of(addr: u64, chunk: nat) -> nat {
    (addr as nat) / chunk
}

/// The slots that a sequence of addresses refers to, counted with multiplicity.
pub open spec fn frames_of(addrs: Seq<u64>, chunk: nat) -> Multiset<nat> {
    addrs.map_values(|a: u64| frame_of(a, chunk)).to_multiset()
}

/// The addresses of ring entries.
pub open spec fn desc_addrs(descs: Seq<XdpDesc>) -> Seq<u64> {
    descs.map_values(|d: XdpDesc| d.addr)
}

/// The addresses of descriptors that the application holds.
pub open spec fn held_addrs(descs: Seq<Descriptor>) -> Seq<u64> {
    descs.map_values(|d: Descriptor| d.address_spec())
}

/// Every slot of a frame area of `count` slots, once each.
pub open spec fn all_frames(count: nat) -> Multiset<nat>
    decreases count,
{
    if count == 0 {
        Multiset::empty()
    } else {
        all_frames((count - 1) as nat).insert((count - 1) as nat)
    }
}

pub proof fn lemma_frames_concat(a: Seq<u64>, b: Seq<u64>, chunk: nat)
    ensures
        frames_of(a + b, chunk) == frames_of(a, chunk).add(frames_of(b, chunk)),
{
    let f = |x: u64| frame_of(x, chunk);
    assert((a + b).map_values(f) =~= a.map_values(f) + b.map_values(f));
    vstd::seq_lib::lemma_multiset_commutative(a.map_values(f), b.map_values(f));
}

/// Splitting a sequence at `n` splits the slots it refers to.
pub proof fn lemma_frames_split(a: Seq<u64>, n: int, chunk: nat)
    requires
        0 <= n <= a.len(),
    ensures
        frames_of(a, chunk) == frames_of(a.take(n), chunk).add(frames_of(a.skip(n), chunk)),
{
    assert(a =~= a.take(n) + a.skip(n));
    lemma_frames_concat(a.take(n), a.skip(n), chunk);
}

/// The start of the slot that address `addr` falls in.
pub open spec fn slot_start(addr: u64, chunk: nat) -> u64 {
    ((addr as nat) - (addr as nat) % chunk) as u64
}

/// The starts of the slots that a sequence of addresses falls in.
pub open spec fn slot_starts(addrs: Seq<u64>, chunk: nat) -> Seq<u64> {
    addrs.map_values(|a: u64| slot_start(a, chunk))
}

/// A slot start lies at or below the address, is a multiple of the slot
/// size, and names the same slot.
pub proof fn lemma_slot_start(addr: u64, chunk: nat)
    requires
        chunk > 0,
    ensures
        (addr as nat) % chunk <= addr,
        slot_start(addr, chunk) as nat == (addr as nat) - (addr as nat) % chunk,
        (slot_start(addr, chunk) as nat) % chunk == 0,
        frame_of(slot_start(addr, chunk), chunk) == frame_of(addr, chunk),
{
    let a = addr as int;
    let c = chunk as int;
    let q = a / c;
    vstd::arithmetic::div_mod::lemma_fundamental_div_mod(a, c);
    assert(q >= 0) by (nonlinear_arith)
        requires
            a >= 0,
            c > 0,
            q == a / c,
    ;
    assert(c * q >= 0) by (nonlinear_arith)
        requires
            q >= 0,
            c > 0,
    ;
    assert(q * c == c * q) by (nonlinear_arith);
    vstd::arithmetic::div_mod::lemma_mod_multiples_basic(q, c);
    vstd::arithmetic::div_mod::lemma_div_multiples_vanish(q, c);
}

/// Moving addresses to the starts of their slots keeps the slots they name.
pub proof fn lemma_frames_slot_starts(addrs: Seq<u64>, chunk: nat)
    requires
        chunk > 0,
    ensures
        frames_of(slot_starts(addrs, chunk), chunk) == frames_of(addrs, chunk),
{
    let f = |a: u64| frame_of(a, chunk);
    assert forall|i: int| 0 <= i < addrs.len() implies #[trigger] slot_starts(addrs, chunk)[i]
        == slot_start(addrs[i], chunk) && f(slot_start(addrs[i], chunk)) == f(addrs[i]) by {
        lemma_slot_start(addrs[i], chunk);
    }
    assert(slot_starts(addrs, chunk).map_values(f) =~= addrs.map_values(f));
}

} // verus!

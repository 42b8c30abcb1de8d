use crate::ledger::frame_of;
use vstd::arithmetic::div_mod::{lemma_fundamental_div_mod, lemma_fundamental_div_mod_converse};
use vstd::prelude::*;

verus! {

/// Where the kernel puts a frame that it receives into the slot holding
/// address `addr`: past the headroom of that slot.
pub open spec fn payload_of(addr: u64, chunk: nat, headroom: nat) -> int {
    (addr as nat - (addr as nat) % chunk) + headroom
}

/// A payload placed past the headroom of a slot lies in that slot and in the
/// frame area.
pub proof fn lemma_payload_in_slot(addr: u64, chunk: nat, headroom: nat, count: nat, len: nat)
    requires
        headroom < chunk,
        addr < chunk * count,
        headroom + len <= chunk,
    ensures
        payload_of(addr, chunk, headroom) % (chunk as int) == headroom,
        payload_of(addr, chunk, headroom) / (chunk as int) == frame_of(addr, chunk),
        payload_of(addr, chunk, headroom) < chunk * count,
        payload_of(addr, chunk, headroom) + len <= chunk * count,
        0 <= payload_of(addr, chunk, headroom),
        (addr as int) % (chunk as int) <= addr,
{
    let a = addr as int;
    let c = chunk as int;
    let q = a / c;
    lemma_fundamental_div_mod(a, c);
    assert(0 <= a % c < c);
    let base = a - a % c;
    assert(base == c * q);
    assert(q >= 0) by (nonlinear_arith)
        requires
            a >= 0,
            c > 0,
            q == a / c,
    ;
    assert(q < count) by (nonlinear_arith)
        requires
            c * q <= a,
            a < c * count,
            c > 0,
    ;
    lemma_fundamental_div_mod_converse(c * q + headroom, c, q, headroom as int);
    assert(q * c + headroom == c * q + headroom) by (nonlinear_arith);
    assert(c * q + c <= c * count) by (nonlinear_arith)
        requires
            q + 1 <= count,
            c > 0,
    ;
}

} // verus!

use crate::descriptor::Descriptor;
use crate::ledger::{all_frames, desc_addrs, frames_of, held_addrs};
use crate::socket::Socket;
use vstd::prelude::*;

verus! {

proof fn lemma_frames_len(addrs: Seq<u64>, chunk: nat)
    ensures
        frames_of(addrs, chunk).len() == addrs.len(),
{
    let f = |a: u64| crate::ledger::frame_of(a, chunk);
    addrs.map_values(f).to_multiset_ensures();
}

proof fn lemma_all_frames(count: nat)
    ensures
        all_frames(count).len() == count,
        forall|k: nat| #[trigger] all_frames(count).count(k) == if k < count { 1nat } else { 0nat },
    decreases count,
{
    if count > 0 {
        lemma_all_frames((count - 1) as nat);
    }
}

/// Every frame is accounted for exactly once.  A socket starts with every
/// slot in its pool (`Socket::init`), and each burst and kernel step keeps
/// the slots held by the pool, the four rings and the application's
/// descriptors together unchanged.  Whenever they name every slot once,
/// those containers hold exactly `frame_count` frames between them and each
/// slot is held by exactly one of them.
pub proof fn lemma_frames_total(s: Socket, held: Seq<Descriptor>)
    requires
        s.wf(),
        s.frames().add(frames_of(held_addrs(held), s.chunk())) == all_frames(s.frame_count_spec()),
    ensures
        s.pool_spec()@.len() + s.umem_spec().fill_queue()@.len()
            + s.umem_spec().completion_queue()@.len() + s.rx_spec()@.len() + s.tx_spec()@.len()
            + held.len() == s.frame_count_spec(),
        forall|k: nat|
            #[trigger] s.frames().add(frames_of(held_addrs(held), s.chunk())).count(k) == if k
                < s.frame_count_spec() {
                1nat
            } else {
                0nat
            },
{
    let c = s.chunk();
    lemma_frames_len(s.pool_spec()@, c);
    lemma_frames_len(s.umem_spec().fill_queue()@, c);
    lemma_frames_len(s.umem_spec().completion_queue()@, c);
    lemma_frames_len(desc_addrs(s.rx_spec()@), c);
    lemma_frames_len(desc_addrs(s.tx_spec()@), c);
    lemma_frames_len(held_addrs(held), c);
    lemma_all_frames(s.frame_count_spec());
}

/// The slots held by a socket's containers and by the application.
pub open spec fn held_frames(s: Socket, held: Seq<Descriptor>) -> vstd::multiset::Multiset<nat> {
    s.frames().add(frames_of(held_addrs(held), s.chunk()))
}

proof fn lemma_chain_at(totals: Seq<vstd::multiset::Multiset<nat>>, i: int)
    requires
        0 <= i < totals.len(),
        forall|k: int| 0 <= k < totals.len() - 1 ==> #[trigger] totals[k + 1] == totals[k],
    ensures
        totals[i] == totals[0],
    decreases i,
{
    if i > 0 {
        lemma_chain_at(totals, i - 1);
        assert(totals[(i - 1) + 1] == totals[i - 1]);
    }
}

/// A run of rounds: `states[i]` is a socket with the descriptors that the
/// application held after round `i`.  The run starts from a socket that holds
/// every slot once (as `Socket::init` leaves it) and each round keeps the
/// slots held (as every burst and kernel step ensures).  Then after every
/// round the containers and the application hold exactly `frame_count`
/// frames between them.
pub proof fn lemma_rounds_keep_frames(states: Seq<(Socket, Seq<Descriptor>)>, count: nat)
    requires
        states.len() > 0,
        held_frames(states[0].0, states[0].1) == all_frames(count),
        forall|i: int| 0 <= i < states.len() ==> (#[trigger] states[i]).0.wf(),
        forall|i: int| 0 <= i < states.len() ==> (#[trigger] states[i]).0.frame_count_spec() == count,
        forall|i: int|
            0 <= i < states.len() - 1 ==> held_frames(states[i + 1].0, states[i + 1].1)
                == held_frames(#[trigger] states[i].0, states[i].1),
    ensures
        forall|i: int|
            0 <= i < states.len() ==> {
                let s = (#[trigger] states[i]).0;
                s.pool_spec()@.len() + s.umem_spec().fill_queue()@.len()
                    + s.umem_spec().completion_queue()@.len() + s.rx_spec()@.len()
                    + s.tx_spec()@.len() + states[i].1.len() == count
            },
{
    let totals = Seq::new(states.len(), |i: int| held_frames(states[i].0, states[i].1));
    assert forall|k: int| 0 <= k < totals.len() - 1 implies #[trigger] totals[k + 1]
        == totals[k] by {
        assert(held_frames(states[k + 1].0, states[k + 1].1) == held_frames(
            states[k].0,
            states[k].1,
        ));
    }
    assert forall|i: int| 0 <= i < states.len() implies {
        let s = (#[trigger] states[i]).0;
        s.pool_spec()@.len() + s.umem_spec().fill_queue()@.len()
            + s.umem_spec().completion_queue()@.len() + s.rx_spec()@.len() + s.tx_spec()@.len()
            + states[i].1.len() == count
    } by {
        lemma_chain_at(totals, i);
        lemma_frames_total(states[i].0, states[i].1);
    }
}

} // verus!

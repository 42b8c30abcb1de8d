use crate::pool::AddressPool;
use vstd::prelude::*;

verus! {

/// A bounded first-in, first-out store of values, such as the pool of free
/// frame offsets that the fill and completion steps draw on and refill.
pub trait Buffer<T>: Sized {
    /// The values held, the next to leave first.
    spec fn items(&self) -> Seq<T>;

    /// How many values the buffer can hold.
    spec fn limit(&self) -> nat;

    spec fn buffer_wf(&self) -> bool;

    /// The number of values held.
    fn count(&self) -> (r: u32)
        requires
            self.buffer_wf(),
        ensures
            r == self.items().len(),
    ;

    /// How many values can be pushed before `push` starts handing them back.
    fn free(&self) -> (r: u32)
        requires
            self.buffer_wf(),
        ensures
            r == self.limit() - self.items().len(),
    ;

    /// Takes the oldest value; `None` if the buffer is empty.
    fn pop(&mut self) -> (r: Option<T>)
        requires
            old(self).buffer_wf(),
        ensures
            final(self).buffer_wf(),
            final(self).limit() == old(self).limit(),
            old(self).items().len() == 0 ==> r is None && final(self).items() == old(self).items(),
            old(self).items().len() > 0 ==> r == Some(old(self).items()[0]) && final(self).items()
                == old(self).items().drop_first(),
    ;

    /// Appends `value`; when the buffer is full, it is handed back instead.
    fn push(&mut self, value: T) -> (r: Option<T>)
        requires
            old(self).buffer_wf(),
        ensures
            final(self).buffer_wf(),
            final(self).limit() == old(self).limit(),
            old(self).items().len() < old(self).limit() ==> r is None && final(self).items() == old(
                self,
            ).items().push(value),
            old(self).items().len() >= old(self).limit() ==> r == Some(value) && final(self).items()
                == old(self).items(),
    ;
}

impl Buffer<u64> for AddressPool {
    open spec fn items(&self) -> Seq<u64> {
        self@
    }

    open spec fn limit(&self) -> nat {
        self.bound()
    }

    open spec fn buffer_wf(&self) -> bool {
        self.wf()
    }

    fn count(&self) -> (r: u32) {
        self.len()
    }

    fn free(&self) -> (r: u32) {
        AddressPool::free(self)
    }

    fn pop(&mut self) -> (r: Option<u64>) {
        AddressPool::pop(self)
    }

    fn push(&mut self, value: u64) -> (r: Option<u64>) {
        match AddressPool::push(self, value) {
            Ok(()) => None,
            Err(back) => Some(back),
        }
    }
}

} // verus!

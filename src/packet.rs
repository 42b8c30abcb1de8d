use vstd::prelude::*;

verus! {

/// Length of a MAC address in bytes.
pub const MAC_LEN: usize = 6;

/// An Ethernet frame being read or rewritten in place: destination MAC in
/// bytes 0..6, source MAC in bytes 6..12.
pub struct Packet<'a> {
    data: &'a mut [u8],
}

/// `bytes` with `part` written over it from position `at` on.
pub open spec fn overwrite(bytes: Seq<u8>, at: int, part: Seq<u8>) -> Seq<u8> {
    bytes.subrange(0, at) + part + bytes.subrange(at + part.len(), bytes.len() as int)
}

impl<'a> Packet<'a> {
    /// The frame's bytes.
    pub closed spec fn view(&self) -> Seq<u8> {
        self.data@
    }

    pub fn new(data: &'a mut [u8]) -> (r: Packet<'a>)
        ensures
            r@ == old(data)@,
    {
        Packet { data }
    }

    pub fn destination_mac(&self) -> (r: &[u8])
        requires
            self@.len() >= 6,
        ensures
            r@ == self@.subrange(0, 6),
    {
        &self.data[0..6]
    }

    pub fn source_mac(&self) -> (r: &[u8])
        requires
            self@.len() >= 12,
        ensures
            r@ == self@.subrange(6, 12),
    {
        &self.data[6..12]
    }

    pub fn set_destination_mac(&mut self, address: &[u8])
        requires
            old(self)@.len() >= 6,
            address@.len() == MAC_LEN,
        ensures
            final(self)@ == overwrite(old(self)@, 0, address@),
    {
        self.write_at(0, address);
    }

    pub fn set_source_mac(&mut self, address: &[u8])
        requires
            old(self)@.len() >= 12,
            address@.len() == MAC_LEN,
        ensures
            final(self)@ == overwrite(old(self)@, 6, address@),
    {
        self.write_at(6, address);
    }

    /// Leaves the frame as it is: IP headers are not rewritten here.
    pub fn set_source_ip(&mut self)
        ensures
            final(self)@ == old(self)@,
    {
    }

    /// Leaves the frame as it is: IP headers are not rewritten here.
    pub fn set_destination_ip(&mut self)
        ensures
            final(self)@ == old(self)@,
    {
    }

    fn write_at(&mut self, at: usize, part: &[u8])
        requires
            at + part@.len() <= old(self)@.len(),
        ensures
            final(self)@ == overwrite(old(self)@, at as int, part@),
    {
        let total = self.data.len();
        let mut i: usize = 0;
        while i < part.len()
            invariant
                i <= part@.len(),
                self@.len() == total,
                at + part@.len() <= self@.len(),
                self@.len() == old(self)@.len(),
                forall|k: int| 0 <= k < at ==> self@[k] == old(self)@[k],
                forall|k: int| at + part@.len() <= k < self@.len() ==> self@[k] == old(self)@[k],
                forall|k: int| at <= k < at + i ==> self@[k] == part@[k - at],
                forall|k: int| at + i <= k < at + part@.len() ==> self@[k] == old(self)@[k],
            decreases part@.len() - i,
        {
            self.data[at + i] = part[i];
            i = i + 1;
        }
        assert(self@ =~= overwrite(old(self)@, at as int, part@));
    }
}

} // verus!

use crate::ring::XdpDesc;
use vstd::prelude::*;

verus! {

/// One frame held by the application: where its payload starts in the frame
/// area and how many bytes it holds.  A descriptor is neither `Clone` nor
/// `Copy`, so each frame has exactly one holder.
pub struct Descriptor {
    address: u64,
    length: u32,
}

impl Descriptor {
    pub closed spec fn address_spec(&self) -> u64 {
        self.address
    }

    pub closed spec fn length_spec(&self) -> u32 {
        self.length
    }

    pub(crate) fn from_desc(desc: XdpDesc) -> (r: Descriptor)
        ensures
            r.address_spec() == desc.addr,
            r.length_spec() == desc.len,
    {
        Descriptor { address: desc.addr, length: desc.len }
    }

    pub(crate) fn to_desc(&self) -> (r: XdpDesc)
        ensures
            r.addr == self.address_spec(),
            r.len == self.length_spec(),
    {
        XdpDesc { addr: self.address, len: self.length }
    }

    pub fn address(&self) -> (r: u64)
        ensures
            r == self.address_spec(),
    {
        self.address
    }

    pub fn length(&self) -> (r: u32)
        ensures
            r == self.length_spec(),
    {
        self.length
    }

    /// The bytes that the frame's data covers, headroom included, in a frame
    /// area of `area_length` bytes: the start offset and the byte count.
    /// `None` when the payload starts less than `headroom` bytes into the
    /// area or runs past its end.
    pub fn data_range(&self, headroom: u32, area_length: u64) -> (r: Option<(u64, u64)>)
        ensures
            r is Some <==> {
                &&& self.address_spec() >= headroom
                &&& self.address_spec() + self.length_spec() <= area_length
            },
            r matches Some(span) ==> span == (
                (self.address_spec() - headroom) as u64,
                (self.length_spec() + headroom) as u64,
            ),
    {
        if self.address < headroom as u64 {
            return None;
        }
        let len = self.length as u64;
        if len > area_length || self.address > area_length - len {
            return None;
        }
        Some((self.address - headroom as u64, len + headroom as u64))
    }
}

} // verus!

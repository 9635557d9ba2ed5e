//! The Ethernet header.

use vstd::prelude::*;
use vstd::slice::*;
use crate::bit::Bit;
use crate::error::TryFromSliceError;
use crate::header::Header;

verus! {

/// The length of an Ethernet header in bytes.
pub const ETHERNET_HEADER_LEN: usize = 14;

/// An Ethernet header: destination address, source address and the type of
/// what follows.
#[allow(non_camel_case_types)]
#[derive(Debug, Clone, Copy, PartialEq, Eq)]
pub struct ethernet_t<'a> {
    pub dst_addr: Bit<'a, 48>,
    pub src_addr: Bit<'a, 48>,
    pub ether_type: Bit<'a, 16>,
}

impl<'a> ethernet_t<'a> {
    /// Whether the three fields are the first fourteen bytes of `data`.
    pub open spec fn fields_of(&self, data: Seq<u8>) -> bool {
        &&& data.len() >= ETHERNET_HEADER_LEN
        &&& self.dst_addr@ == data.subrange(0, 6)
        &&& self.src_addr@ == data.subrange(6, 12)
        &&& self.ether_type@ == data.subrange(12, 14)
    }

    /// The header at the start of `buf`, where `buf` holds at least fourteen
    /// bytes; else the error of the first field that does not fit.
    pub fn new(buf: &'a [u8]) -> (r: Result<Self, TryFromSliceError>)
        ensures
            r is Ok <==> buf@.len() >= ETHERNET_HEADER_LEN,
            r matches Ok(h) ==> h.fields_of(buf@),
            r matches Err(e) ==> e.bits() == (if buf@.len() < 12 {
                48usize
            } else {
                16usize
            }),
    {
        let dst_addr = match Bit::<'a, 48>::new(buf) {
            Ok(b) => b,
            Err(e) => { return Err(e); },
        };
        let src_addr = match Bit::<'a, 48>::new(slice_subrange(buf, 6, buf.len())) {
            Ok(b) => b,
            Err(e) => { return Err(e); },
        };
        let ether_type = match Bit::<'a, 16>::new(slice_subrange(buf, 12, buf.len())) {
            Ok(b) => b,
            Err(e) => { return Err(e); },
        };
        proof {
            assert(src_addr@ =~= buf@.subrange(6, 12));
            assert(ether_type@ =~= buf@.subrange(12, 14));
        }
        Ok(ethernet_t { dst_addr, src_addr, ether_type })
    }
}

impl<'a> Header<'a> for ethernet_t<'a> {
    open spec fn long_enough(data: Seq<u8>) -> bool {
        data.len() >= ETHERNET_HEADER_LEN
    }

    open spec fn holds(&self, data: Seq<u8>) -> bool {
        self.fields_of(data)
    }

    /// Sets the three fields from the first fourteen bytes of `data`. Where
    /// `data` is shorter the header stays as it was.
    fn set(&mut self, data: &'a [u8]) -> (r: Result<(), TryFromSliceError>)
        ensures
            r is Ok <==> data@.len() >= ETHERNET_HEADER_LEN,
            r matches Err(e) ==> *final(self) == *old(self) && e.bits() == (if data@.len() < 12 {
                48usize
            } else {
                16usize
            }),
    {
        match ethernet_t::new(data) {
            Ok(h) => {
                *self = h;
                Ok(())
            },
            Err(e) => Err(e),
        }
    }
}

} // verus!

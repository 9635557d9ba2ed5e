//! Header extraction: packets as byte buffers, and the operation by which a
//! header type fills itself from one.

use vstd::prelude::*;
use crate::error::TryFromSliceError;

verus! {

/// A protocol header that can be filled from the bytes of a packet. The
/// fields of a header are views into the packet; no byte is copied.
pub trait Header<'a> {
    /// Whether the header's fields are those of a packet that starts with
    /// `data`. A header type that says nothing of its fields keeps this
    /// answer, which asks nothing of them.
    open spec fn holds(&self, data: Seq<u8>) -> bool {
        true
    }

    /// Whether `data` reaches to the end of the header, so that every field
    /// can be read from it. A header type that does not say how far it
    /// reaches keeps this answer, under which no packet is known to do.
    open spec fn long_enough(data: Seq<u8>) -> bool {
        false
    }

    /// Reads the header's fields from the start of `data`. It succeeds on
    /// every packet that is long enough for the header, and after a success
    /// the fields are those of `data`. It fails where `data` ends before the
    /// header does.
    fn set(&mut self, data: &'a [u8]) -> (r: Result<(), TryFromSliceError>)
        ensures
            Self::long_enough(data@) ==> r is Ok,
            r is Ok ==> final(self).holds(data@),
    ;
}

/// The bytes of a packet that are still to be parsed.
#[allow(non_camel_case_types)]
#[derive(Debug, Clone, Copy)]
pub struct packet_in<'a>(pub &'a [u8]);

/// The bytes of a packet to send.
#[allow(non_camel_case_types)]
#[derive(Debug, Clone, Copy)]
pub struct packet_out<'a>(pub &'a [u8]);

impl<'a> packet_in<'a> {
    /// Fills `h` from the start of the packet and hands on what `h` reports:
    /// a success on every packet that is long enough for the header, with
    /// the fields of this packet in `h`. How far the header reaches, and
    /// with it where the next one starts, is for the caller to know.
    pub fn extract<H: Header<'a>>(&self, h: &mut H) -> (r: Result<(), TryFromSliceError>)
        ensures
            H::long_enough(self.0@) ==> r is Ok,
            r is Ok ==> final(h).holds(self.0@),
    {
        h.set(self.0)
    }
}

} // verus!

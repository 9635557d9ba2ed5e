//! A view of a field of a fixed number of bits over packet bytes.

use vstd::prelude::*;
use vstd::slice::*;
use vstd::string::*;
use vstd::std_specs::cmp::PartialEqSpecImpl;
use vstd::std_specs::convert::FromSpecImpl;
use crate::error::TryFromSliceError;
use crate::field::{
    be_value, bytes_copy, bytes_equal, decode_be, field_of, lemma_be_value_bound,
    lemma_field_round_trip, lemma_radix_pow_values, FieldValue,
};
use crate::text::{append_hex, hex_text};

verus! {

/// The number of bytes that hold `bits` bits.
pub open spec fn required_bytes(bits: nat) -> nat {
    if bits % 8 > 0 {
        bits / 8 + 1
    } else {
        bits / 8
    }
}

/// A field of `N` bits, most significant bit first, borrowed from a buffer.
/// It holds exactly the bytes the field covers.
#[derive(Debug, Clone, Copy, Eq, Hash)]
pub struct Bit<'a, const N: usize>(&'a [u8]);

impl<'a, const N: usize> View for Bit<'a, N> {
    type V = Seq<u8>;

    closed spec fn view(&self) -> Seq<u8> {
        self.0@
    }
}

impl<'a, const N: usize> Bit<'a, N> {
    #[verifier::type_invariant]
    spec fn covers_width(self) -> bool {
        self.0@.len() == required_bytes(N as nat)
    }

    /// Views the first bytes of `data` as a field of `N` bits, or fails where
    /// `data` holds fewer than `N` bits.
    pub fn new(data: &'a [u8]) -> (r: Result<Self, TryFromSliceError>)
        ensures
            r is Err <==> data@.len() * 8 < N,
            r matches Ok(b) ==> b@ == data@.subrange(0, required_bytes(N as nat) as int),
            r matches Err(e) ==> e.bits() == N,
    {
        let required_bytes: usize = if N % 8 > 0 {
            N / 8 + 1
        } else {
            N / 8
        };
        if data.len() < required_bytes {
            return Err(TryFromSliceError::new(N));
        }
        Ok(Bit(slice_subrange(data, 0, required_bytes)))
    }

    /// The bytes that the field covers.
    pub fn bytes(&self) -> (b: &'a [u8])
        ensures
            b@ == self@,
            b@.len() == required_bytes(N as nat),
    {
        proof {
            use_type_invariant(self);
        }
        self.0
    }

    /// The decoded value of the field: an integer where `N` is the width of
    /// an integer type, else a copy of the bytes.
    pub fn value(&self) -> (v: FieldValue)
        ensures
            v@ == field_of(self@, N as nat),
            v@.be_bytes() == self@,
    {
        proof {
            use_type_invariant(self);
            lemma_be_value_bound(self.0@);
            lemma_radix_pow_values();
            lemma_field_round_trip(self.0@, N as nat);
        }
        if N == 8 {
            FieldValue::U8(decode_be(self.0) as u8)
        } else if N == 16 {
            FieldValue::U16(decode_be(self.0) as u16)
        } else if N == 32 {
            FieldValue::U32(decode_be(self.0) as u32)
        } else if N == 64 {
            FieldValue::U64(decode_be(self.0) as u64)
        } else if N == 128 {
            FieldValue::U128(decode_be(self.0))
        } else {
            FieldValue::Bytes(bytes_copy(self.0))
        }
    }

    /// The bytes of the field as lowercase hexadecimal digits, two per byte.
    pub fn to_hex(&self) -> (s: String)
        ensures
            s@ == hex_text(self@),
    {
        let mut s = String::new();
        append_hex(&mut s, self.0);
        assert(s@ =~= hex_text(self@));
        s
    }
}

/// Two fields of one width are equal where they cover the same bytes.
impl<'a, const N: usize> PartialEq for Bit<'a, N> {
    fn eq(&self, other: &Bit<'a, N>) -> (r: bool) {
        bytes_equal(self.0, other.0)
    }
}

impl<'a, const N: usize> PartialEqSpecImpl for Bit<'a, N> {
    open spec fn obeys_eq_spec() -> bool {
        true
    }

    open spec fn eq_spec(&self, other: &Bit<'a, N>) -> bool {
        self@ == other@
    }
}

impl<'a> Bit<'a, 8> {
    /// The field as an integer.
    pub fn to_u8(&self) -> (v: u8)
        ensures
            v == be_value(self@),
    {
        proof {
            use_type_invariant(self);
            lemma_be_value_bound(self.0@);
            lemma_radix_pow_values();
        }
        decode_be(self.0) as u8
    }
}

impl<'a> Bit<'a, 16> {
    /// The field as a big-endian integer.
    pub fn to_u16(&self) -> (v: u16)
        ensures
            v == be_value(self@),
    {
        proof {
            use_type_invariant(self);
            lemma_be_value_bound(self.0@);
            lemma_radix_pow_values();
        }
        decode_be(self.0) as u16
    }
}

impl<'a> Bit<'a, 32> {
    /// The field as a big-endian integer.
    pub fn to_u32(&self) -> (v: u32)
        ensures
            v == be_value(self@),
    {
        proof {
            use_type_invariant(self);
            lemma_be_value_bound(self.0@);
            lemma_radix_pow_values();
        }
        decode_be(self.0) as u32
    }
}

impl<'a> Bit<'a, 64> {
    /// The field as a big-endian integer.
    pub fn to_u64(&self) -> (v: u64)
        ensures
            v == be_value(self@),
    {
        proof {
            use_type_invariant(self);
            lemma_be_value_bound(self.0@);
            lemma_radix_pow_values();
        }
        decode_be(self.0) as u64
    }
}

impl<'a> Bit<'a, 128> {
    /// The field as a big-endian integer.
    pub fn to_u128(&self) -> (v: u128)
        ensures
            v == be_value(self@),
    {
        proof {
            use_type_invariant(self);
        }
        decode_be(self.0)
    }
}

impl<'a> From<Bit<'a, 8>> for u8 {
    fn from(b: Bit<'a, 8>) -> (v: u8) {
        b.to_u8()
    }
}

impl<'a> FromSpecImpl<Bit<'a, 8>> for u8 {
    open spec fn obeys_from_spec() -> bool {
        true
    }

    open spec fn from_spec(b: Bit<'a, 8>) -> u8 {
        be_value(b@) as u8
    }
}

impl<'a> From<Bit<'a, 16>> for u16 {
    fn from(b: Bit<'a, 16>) -> (v: u16) {
        b.to_u16()
    }
}

impl<'a> FromSpecImpl<Bit<'a, 16>> for u16 {
    open spec fn obeys_from_spec() -> bool {
        true
    }

    open spec fn from_spec(b: Bit<'a, 16>) -> u16 {
        be_value(b@) as u16
    }
}

impl<'a> From<Bit<'a, 32>> for u32 {
    fn from(b: Bit<'a, 32>) -> (v: u32) {
        b.to_u32()
    }
}

impl<'a> FromSpecImpl<Bit<'a, 32>> for u32 {
    open spec fn obeys_from_spec() -> bool {
        true
    }

    open spec fn from_spec(b: Bit<'a, 32>) -> u32 {
        be_value(b@) as u32
    }
}

impl<'a> From<Bit<'a, 64>> for u64 {
    fn from(b: Bit<'a, 64>) -> (v: u64) {
        b.to_u64()
    }
}

impl<'a> FromSpecImpl<Bit<'a, 64>> for u64 {
    open spec fn obeys_from_spec() -> bool {
        true
    }

    open spec fn from_spec(b: Bit<'a, 64>) -> u64 {
        be_value(b@) as u64
    }
}

impl<'a> From<Bit<'a, 128>> for u128 {
    fn from(b: Bit<'a, 128>) -> (v: u128) {
        b.to_u128()
    }
}

impl<'a> FromSpecImpl<Bit<'a, 128>> for u128 {
    open spec fn obeys_from_spec() -> bool {
        true
    }

    open spec fn from_spec(b: Bit<'a, 128>) -> u128 {
        be_value(b@) as u128
    }
}

} // verus!

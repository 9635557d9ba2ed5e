//! Decoded field values and their big-endian byte form.

use vstd::prelude::*;
use vstd::std_specs::cmp::PartialEqSpecImpl;

verus! {

/// The number that `bytes` spell in base 256, most significant byte first.
pub open spec fn be_value(bytes: Seq<u8>) -> nat
    decreases bytes.len(),
{
    if bytes.len() == 0 {
        0
    } else {
        be_value(bytes.drop_last()) * 256 + bytes.last() as nat
    }
}

/// The `len` least significant base-256 digits of `value`, most significant
/// first.
pub open spec fn be_bytes(value: nat, len: nat) -> Seq<u8>
    decreases len,
{
    if len == 0 {
        Seq::empty()
    } else {
        be_bytes(value / 256, (len - 1) as nat).push((value % 256) as u8)
    }
}

/// 256 to the power `len`: the number of byte strings of length `len`.
pub open spec fn radix_pow(len: nat) -> nat
    decreases len,
{
    if len == 0 {
        1
    } else {
        256 * radix_pow((len - 1) as nat)
    }
}

/// A byte string of length `n` spells a number below 256 to the `n`.
pub proof fn lemma_be_value_bound(bytes: Seq<u8>)
    ensures
        be_value(bytes) < radix_pow(bytes.len()),
    decreases bytes.len(),
{
    if bytes.len() > 0 {
        lemma_be_value_bound(bytes.drop_last());
    }
}

/// Longer byte strings have a larger range.
pub proof fn lemma_radix_pow_monotone(a: nat, b: nat)
    requires
        a <= b,
    ensures
        radix_pow(a) <= radix_pow(b),
        radix_pow(a) >= 1,
    decreases b,
{
    if b > 0 {
        if a < b {
            lemma_radix_pow_monotone(a, (b - 1) as nat);
        } else {
            lemma_radix_pow_monotone((a - 1) as nat, (b - 1) as nat);
        }
    }
}

/// The ranges of the five integer widths.
pub proof fn lemma_radix_pow_values()
    ensures
        radix_pow(1) == 0x100,
        radix_pow(2) == 0x1_0000,
        radix_pow(4) == 0x1_0000_0000,
        radix_pow(8) == 0x1_0000_0000_0000_0000,
        radix_pow(16) == 0x1_0000_0000_0000_0000_0000_0000_0000_0000,
{
    reveal_with_fuel(radix_pow, 17);
}

/// `be_bytes` yields as many bytes as asked for.
pub proof fn lemma_be_bytes_len(value: nat, len: nat)
    ensures
        be_bytes(value, len).len() == len,
    decreases len,
{
    if len > 0 {
        lemma_be_bytes_len(value / 256, (len - 1) as nat);
    }
}

/// Spelling the number of a byte string with as many bytes gives the string
/// back.
pub proof fn lemma_be_bytes_of_be_value(bytes: Seq<u8>)
    ensures
        be_bytes(be_value(bytes), bytes.len()) == bytes,
    decreases bytes.len(),
{
    if bytes.len() > 0 {
        let head = bytes.drop_last();
        lemma_be_bytes_of_be_value(head);
        assert((be_value(head) * 256 + bytes.last() as nat) / 256 == be_value(head));
        assert((be_value(head) * 256 + bytes.last() as nat) % 256 == bytes.last() as nat);
        assert(be_bytes(be_value(bytes), bytes.len()) =~= bytes);
    } else {
        assert(be_bytes(be_value(bytes), bytes.len()) =~= bytes);
    }
}

/// Reading back the `len` bytes of a number below 256 to the `len` gives the
/// number.
pub proof fn lemma_be_value_of_be_bytes(value: nat, len: nat)
    requires
        value < radix_pow(len),
    ensures
        be_value(be_bytes(value, len)) == value,
    decreases len,
{
    if len > 0 {
        let rest = (len - 1) as nat;
        lemma_be_value_of_be_bytes(value / 256, rest);
        let s = be_bytes(value, len);
        assert(s.drop_last() =~= be_bytes(value / 256, rest));
    }
}

/// Reads up to sixteen bytes as one big-endian number.
pub fn decode_be(bytes: &[u8]) -> (v: u128)
    requires
        bytes@.len() <= 16,
    ensures
        v == be_value(bytes@),
{
    let mut v: u128 = 0;
    let mut i: usize = 0;
    assert(bytes@.subrange(0, 0) =~= Seq::<u8>::empty());
    while i < bytes.len()
        invariant
            i <= bytes@.len() <= 16,
            v == be_value(bytes@.subrange(0, i as int)),
        decreases bytes@.len() - i,
    {
        proof {
            let p = bytes@.subrange(0, i as int);
            let q = bytes@.subrange(0, i as int + 1);
            assert(q.drop_last() =~= p);
            lemma_be_value_bound(q);
            lemma_radix_pow_monotone(q.len(), 16);
            lemma_radix_pow_values();
        }
        v = v * 256 + bytes[i] as u128;
        i += 1;
    }
    assert(bytes@.subrange(0, i as int) =~= bytes@);
    v
}

/// Appends the `len` least significant bytes of `value`, most significant
/// first.
pub fn append_be(out: &mut Vec<u8>, value: u128, len: usize)
    ensures
        final(out)@ == old(out)@ + be_bytes(value as nat, len as nat),
    decreases len,
{
    if len > 0 {
        append_be(out, value / 256, len - 1);
        out.push((value % 256) as u8);
    }
    assert(out@ =~= old(out)@ + be_bytes(value as nat, len as nat));
}

/// Whether two byte strings hold the same bytes.
pub fn bytes_equal(a: &[u8], b: &[u8]) -> (r: bool)
    ensures
        r == (a@ == b@),
{
    if a.len() != b.len() {
        return false;
    }
    let mut i: usize = 0;
    while i < a.len()
        invariant
            i <= a@.len(),
            a@.len() == b@.len(),
            forall|k: int| 0 <= k < i ==> a@[k] == b@[k],
        decreases a@.len() - i,
    {
        if a[i] != b[i] {
            return false;
        }
        i += 1;
    }
    assert(a@ =~= b@);
    true
}

/// A copy of a byte string.
pub fn bytes_copy(a: &[u8]) -> (r: Vec<u8>)
    ensures
        r@ == a@,
{
    let mut r: Vec<u8> = Vec::with_capacity(a.len());
    let mut i: usize = 0;
    while i < a.len()
        invariant
            i <= a@.len(),
            r@ == a@.subrange(0, i as int),
        decreases a@.len() - i,
    {
        r.push(a[i]);
        assert(r@ =~= a@.subrange(0, i as int + 1));
        i += 1;
    }
    assert(a@.subrange(0, i as int) =~= a@);
    r
}

/// The value of a field once decoded: an integer of the field's own width
/// where the width is one of 8, 16, 32, 64 and 128 bits, else the bytes that
/// the field covers.
#[derive(Debug, Eq, Hash)]
pub enum FieldValue {
    U8(u8),
    U16(u16),
    U32(u32),
    U64(u64),
    U128(u128),
    Bytes(Vec<u8>),
}

/// What a [`FieldValue`] stands for: an integer together with its width in
/// bits, or a byte string.
pub enum FieldView {
    Int { bits: nat, value: u128 },
    Bytes(Seq<u8>),
}

impl FieldView {
    /// The big-endian bytes of the value, as many as its width takes.
    pub open spec fn be_bytes(self) -> Seq<u8> {
        match self {
            FieldView::Int { bits, value } => be_bytes(value as nat, bits / 8),
            FieldView::Bytes(b) => b,
        }
    }

    /// The width of the value in bits.
    pub open spec fn bits(self) -> nat {
        match self {
            FieldView::Int { bits, value } => bits,
            FieldView::Bytes(b) => 8 * b.len(),
        }
    }
}

/// Whether `bits` is the width of one of the integer types.
pub open spec fn is_integer_width(bits: nat) -> bool {
    bits == 8 || bits == 16 || bits == 32 || bits == 64 || bits == 128
}

/// The value of a field of `bits` bits that covers `bytes`.
pub open spec fn field_of(bytes: Seq<u8>, bits: nat) -> FieldView {
    if is_integer_width(bits) {
        FieldView::Int { bits, value: be_value(bytes) as u128 }
    } else {
        FieldView::Bytes(bytes)
    }
}

impl View for FieldValue {
    type V = FieldView;

    open spec fn view(&self) -> FieldView {
        match self {
            FieldValue::U8(v) => FieldView::Int { bits: 8, value: *v as u128 },
            FieldValue::U16(v) => FieldView::Int { bits: 16, value: *v as u128 },
            FieldValue::U32(v) => FieldView::Int { bits: 32, value: *v as u128 },
            FieldValue::U64(v) => FieldView::Int { bits: 64, value: *v as u128 },
            FieldValue::U128(v) => FieldView::Int { bits: 128, value: *v },
            FieldValue::Bytes(b) => FieldView::Bytes(b@),
        }
    }
}

impl FieldValue {
    /// The value as an integer with its width in bits, where it is one.
    pub fn as_int(&self) -> (r: Option<(u8, u128)>)
        ensures
            match r {
                Some((bits, value)) => self@ == (FieldView::Int { bits: bits as nat, value }),
                None => self@ is Bytes,
            },
    {
        match self {
            FieldValue::U8(v) => Some((8, *v as u128)),
            FieldValue::U16(v) => Some((16, *v as u128)),
            FieldValue::U32(v) => Some((32, *v as u128)),
            FieldValue::U64(v) => Some((64, *v as u128)),
            FieldValue::U128(v) => Some((128, *v)),
            FieldValue::Bytes(_) => None,
        }
    }

    /// The big-endian bytes of the value.
    pub fn to_be_bytes(&self) -> (r: Vec<u8>)
        ensures
            r@ == self@.be_bytes(),
            8 * r@.len() == self@.bits(),
    {
        proof {
            if let FieldView::Int { bits, value } = self@ {
                lemma_be_bytes_len(value as nat, bits / 8);
            }
        }
        match self {
            FieldValue::Bytes(b) => bytes_copy(b.as_slice()),
            _ => {
                let (bits, value) = self.as_int().unwrap();
                let mut r: Vec<u8> = Vec::new();
                append_be(&mut r, value, (bits / 8) as usize);
                assert(r@ =~= self@.be_bytes());
                r
            },
        }
    }

}

/// Two values are equal where they are of the same width and content.
impl PartialEq for FieldValue {
    fn eq(&self, other: &FieldValue) -> (r: bool) {
        match (self, other) {
            (FieldValue::Bytes(a), FieldValue::Bytes(b)) => bytes_equal(a.as_slice(), b.as_slice()),
            (FieldValue::Bytes(_), _) => false,
            (_, FieldValue::Bytes(_)) => false,
            _ => {
                let (ab, av) = self.as_int().unwrap();
                let (bb, bv) = other.as_int().unwrap();
                ab == bb && av == bv
            },
        }
    }
}

impl PartialEqSpecImpl for FieldValue {
    open spec fn obeys_eq_spec() -> bool {
        true
    }

    open spec fn eq_spec(&self, other: &FieldValue) -> bool {
        self@ == other@
    }
}

impl Clone for FieldValue {
    fn clone(&self) -> (r: Self)
        ensures
            r@ == self@,
    {
        match self {
            FieldValue::U8(v) => FieldValue::U8(*v),
            FieldValue::U16(v) => FieldValue::U16(*v),
            FieldValue::U32(v) => FieldValue::U32(*v),
            FieldValue::U64(v) => FieldValue::U64(*v),
            FieldValue::U128(v) => FieldValue::U128(*v),
            FieldValue::Bytes(b) => FieldValue::Bytes(bytes_copy(b.as_slice())),
        }
    }
}

/// A field's value, written back as big-endian bytes, is the bytes that the
/// field covers.
pub proof fn lemma_field_round_trip(bytes: Seq<u8>, bits: nat)
    requires
        bytes.len() == crate::bit::required_bytes(bits),
    ensures
        field_of(bytes, bits).be_bytes() == bytes,
{
    if is_integer_width(bits) {
        lemma_be_value_bound(bytes);
        lemma_radix_pow_monotone(bytes.len(), 16);
        lemma_radix_pow_values();
        lemma_be_bytes_of_be_value(bytes);
    }
}

} // verus!

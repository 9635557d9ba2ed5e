//! Match keys: what one position of a table entry asks of a field.

use vstd::prelude::*;
use vstd::std_specs::cmp::PartialEqSpecImpl;
use crate::field::{be_value, bytes_equal, FieldValue, FieldView};

verus! {

/// Bit `k` of a byte, counted from the most significant, as 0 or 1.
pub open spec fn bit_of(b: u8, k: u8) -> u8 {
    (b >> ((7 - k) as u8)) & 1
}

/// Bit `i` of a byte string, counted from the most significant bit of the
/// first byte.
pub open spec fn bit_at(bytes: Seq<u8>, i: int) -> u8 {
    bit_of(bytes[i / 8], (i % 8) as u8)
}

/// Whether `field` and `value` agree on every bit that is set in `mask`. The
/// three are of one width.
pub open spec fn masked_equal(field: FieldView, value: FieldView, mask: FieldView) -> bool {
    match (field, value, mask) {
        (
            FieldView::Int { bits: fb, value: fv },
            FieldView::Int { bits: vb, value: vv },
            FieldView::Int { bits: mb, value: mv },
        ) => fb == vb && vb == mb && fv & mv == vv & mv,
        (FieldView::Bytes(f), FieldView::Bytes(v), FieldView::Bytes(m)) => {
            &&& f.len() == v.len()
            &&& v.len() == m.len()
            &&& forall|i: int| 0 <= i < f.len() ==> f[i] & m[i] == v[i] & m[i]
        },
        _ => false,
    }
}

/// Whether `field` lies between `low` and `high`, both included. The three
/// are of one width; byte strings are ordered as big-endian numbers.
pub open spec fn in_range(field: FieldView, low: FieldView, high: FieldView) -> bool {
    match (field, low, high) {
        (
            FieldView::Int { bits: fb, value: fv },
            FieldView::Int { bits: lb, value: lv },
            FieldView::Int { bits: hb, value: hv },
        ) => fb == lb && lb == hb && lv <= fv && fv <= hv,
        (FieldView::Bytes(f), FieldView::Bytes(l), FieldView::Bytes(h)) => {
            &&& f.len() == l.len()
            &&& l.len() == h.len()
            &&& be_value(l) <= be_value(f)
            &&& be_value(f) <= be_value(h)
        },
        _ => false,
    }
}

/// Whether the `len` most significant bits of `field` are those of `addr`.
/// The two are of one width, and `len` is at most that width.
pub open spec fn prefix_covers(addr: FieldView, len: nat, field: FieldView) -> bool {
    match (addr, field) {
        (FieldView::Int { bits: ab, value: av }, FieldView::Int { bits: fb, value: fv }) => {
            &&& ab == fb
            &&& len <= ab
            &&& (len == 0 || av >> ((ab - len) as nat) == fv >> ((ab - len) as nat))
        },
        (FieldView::Bytes(a), FieldView::Bytes(f)) => {
            &&& a.len() == f.len()
            &&& len <= 8 * a.len()
            &&& forall|i: int| 0 <= i < len ==> bit_at(a, i) == bit_at(f, i)
        },
        _ => false,
    }
}

proof fn lemma_byte_of_bits(x: u8, y: u8)
    by (bit_vector)
    requires
        bit_of(x, 0) == bit_of(y, 0),
        bit_of(x, 1) == bit_of(y, 1),
        bit_of(x, 2) == bit_of(y, 2),
        bit_of(x, 3) == bit_of(y, 3),
        bit_of(x, 4) == bit_of(y, 4),
        bit_of(x, 5) == bit_of(y, 5),
        bit_of(x, 6) == bit_of(y, 6),
        bit_of(x, 7) == bit_of(y, 7),
    ensures
        x == y,
{
}

proof fn lemma_top_of_bits(x: u8, y: u8, r: u8)
    by (bit_vector)
    requires
        0 < r < 8,
        0 < r ==> bit_of(x, 0) == bit_of(y, 0),
        1 < r ==> bit_of(x, 1) == bit_of(y, 1),
        2 < r ==> bit_of(x, 2) == bit_of(y, 2),
        3 < r ==> bit_of(x, 3) == bit_of(y, 3),
        4 < r ==> bit_of(x, 4) == bit_of(y, 4),
        5 < r ==> bit_of(x, 5) == bit_of(y, 5),
        6 < r ==> bit_of(x, 6) == bit_of(y, 6),
    ensures
        x >> ((8 - r) as u8) == y >> ((8 - r) as u8),
{
}

proof fn lemma_bits_of_top(x: u8, y: u8, r: u8, k: u8)
    by (bit_vector)
    requires
        k < r < 8,
        x >> ((8 - r) as u8) == y >> ((8 - r) as u8),
    ensures
        bit_of(x, k) == bit_of(y, k),
{
}

/// Whether `f` and `v` agree on every bit set in `m`.
fn bytes_masked_equal(f: &[u8], v: &[u8], m: &[u8]) -> (r: bool)
    ensures
        r == masked_equal(FieldView::Bytes(f@), FieldView::Bytes(v@), FieldView::Bytes(m@)),
{
    if f.len() != v.len() || v.len() != m.len() {
        return false;
    }
    let mut i: usize = 0;
    while i < f.len()
        invariant
            i <= f@.len(),
            f@.len() == v@.len(),
            v@.len() == m@.len(),
            forall|k: int| 0 <= k < i ==> f@[k] & m@[k] == v@[k] & m@[k],
        decreases f@.len() - i,
    {
        if f[i] & m[i] != v[i] & m[i] {
            return false;
        }
        i += 1;
    }
    true
}

/// Whether the number that `a` spells is at most the number that `b` spells.
fn be_at_most(a: &[u8], b: &[u8]) -> (r: bool)
    requires
        a@.len() == b@.len(),
    ensures
        r == (be_value(a@) <= be_value(b@)),
{
    // 0: the prefixes read so far are equal; 1: that of `a` is less; 2: greater.
    let mut state: u8 = 0;
    let mut i: usize = 0;
    assert(a@.subrange(0, 0) =~= Seq::<u8>::empty());
    assert(b@.subrange(0, 0) =~= Seq::<u8>::empty());
    while i < a.len()
        invariant
            i <= a@.len(),
            a@.len() == b@.len(),
            state <= 2,
            state == 0 ==> be_value(a@.subrange(0, i as int)) == be_value(
                b@.subrange(0, i as int),
            ),
            state == 1 ==> be_value(a@.subrange(0, i as int)) < be_value(b@.subrange(0, i as int)),
            state == 2 ==> be_value(a@.subrange(0, i as int)) > be_value(b@.subrange(0, i as int)),
        decreases a@.len() - i,
    {
        proof {
            assert(a@.subrange(0, i as int + 1).drop_last() =~= a@.subrange(0, i as int));
            assert(b@.subrange(0, i as int + 1).drop_last() =~= b@.subrange(0, i as int));
        }
        if state == 0 {
            if a[i] < b[i] {
                state = 1;
            } else if a[i] > b[i] {
                state = 2;
            }
        }
        i += 1;
    }
    assert(a@.subrange(0, i as int) =~= a@);
    assert(b@.subrange(0, i as int) =~= b@);
    state != 2
}

/// Whether `a` and `f` agree on their first `len` bits.
fn bytes_prefix_equal(a: &[u8], f: &[u8], len: usize) -> (r: bool)
    requires
        a@.len() == f@.len(),
        len <= 8 * a@.len(),
    ensures
        r == (forall|i: int| 0 <= i < len ==> bit_at(a@, i) == bit_at(f@, i)),
{
    let full: usize = len / 8;
    let rest: usize = len % 8;
    let mut j: usize = 0;
    while j < full
        invariant
            j <= full,
            full == len / 8,
            full <= a@.len(),
            a@.len() == f@.len(),
            forall|k: int| 0 <= k < j ==> a@[k] == f@[k],
        decreases full - j,
    {
        if a[j] != f[j] {
            proof {
                if forall|i: int| 0 <= i < len ==> bit_at(a@, i) == bit_at(f@, i) {
                    let base = 8 * j as int;
                    assert(bit_at(a@, base) == bit_at(f@, base));
                    assert(bit_at(a@, base + 1) == bit_at(f@, base + 1));
                    assert(bit_at(a@, base + 2) == bit_at(f@, base + 2));
                    assert(bit_at(a@, base + 3) == bit_at(f@, base + 3));
                    assert(bit_at(a@, base + 4) == bit_at(f@, base + 4));
                    assert(bit_at(a@, base + 5) == bit_at(f@, base + 5));
                    assert(bit_at(a@, base + 6) == bit_at(f@, base + 6));
                    assert(bit_at(a@, base + 7) == bit_at(f@, base + 7));
                    lemma_byte_of_bits(a@[j as int], f@[j as int]);
                }
            }
            return false;
        }
        j += 1;
    }
    if rest > 0 {
        let shift: u8 = (8 - rest) as u8;
        if a[full] >> shift != f[full] >> shift {
            proof {
                if forall|i: int| 0 <= i < len ==> bit_at(a@, i) == bit_at(f@, i) {
                    let base = 8 * full as int;
                    assert(0 < rest ==> bit_at(a@, base) == bit_at(f@, base));
                    assert(1 < rest ==> bit_at(a@, base + 1) == bit_at(f@, base + 1));
                    assert(2 < rest ==> bit_at(a@, base + 2) == bit_at(f@, base + 2));
                    assert(3 < rest ==> bit_at(a@, base + 3) == bit_at(f@, base + 3));
                    assert(4 < rest ==> bit_at(a@, base + 4) == bit_at(f@, base + 4));
                    assert(5 < rest ==> bit_at(a@, base + 5) == bit_at(f@, base + 5));
                    assert(6 < rest ==> bit_at(a@, base + 6) == bit_at(f@, base + 6));
                    lemma_top_of_bits(a@[full as int], f@[full as int], rest as u8);
                }
            }
            return false;
        }
    }
    proof {
        assert forall|i: int| 0 <= i < len implies bit_at(a@, i) == bit_at(f@, i) by {
            if i / 8 == full {
                lemma_bits_of_top(a@[full as int], f@[full as int], rest as u8, (i % 8) as u8);
            }
        }
    }
    true
}

impl FieldValue {
    /// Whether `self` and `value` agree on every bit that is set in `mask`.
    pub fn masked_equal(&self, value: &FieldValue, mask: &FieldValue) -> (r: bool)
        ensures
            r == masked_equal(self@, value@, mask@),
    {
        match (self, value, mask) {
            (FieldValue::Bytes(f), FieldValue::Bytes(v), FieldValue::Bytes(m)) => {
                bytes_masked_equal(f.as_slice(), v.as_slice(), m.as_slice())
            },
            _ => match (self.as_int(), value.as_int(), mask.as_int()) {
                (Some((fb, fv)), Some((vb, vv)), Some((mb, mv))) => {
                    fb == vb && vb == mb && fv & mv == vv & mv
                },
                _ => false,
            },
        }
    }

    /// Whether `self` lies between `low` and `high`, both included.
    pub fn in_range(&self, low: &FieldValue, high: &FieldValue) -> (r: bool)
        ensures
            r == in_range(self@, low@, high@),
    {
        match (self, low, high) {
            (FieldValue::Bytes(f), FieldValue::Bytes(l), FieldValue::Bytes(h)) => {
                f.len() == l.len() && l.len() == h.len() && be_at_most(l.as_slice(), f.as_slice())
                    && be_at_most(f.as_slice(), h.as_slice())
            },
            _ => match (self.as_int(), low.as_int(), high.as_int()) {
                (Some((fb, fv)), Some((lb, lv)), Some((hb, hv))) => {
                    fb == lb && lb == hb && lv <= fv && fv <= hv
                },
                _ => false,
            },
        }
    }

    /// Whether the `len` most significant bits of `field` are those of
    /// `self`.
    pub fn prefix_covers(&self, len: usize, field: &FieldValue) -> (r: bool)
        ensures
            r == prefix_covers(self@, len as nat, field@),
    {
        match (self, field) {
            (FieldValue::Bytes(a), FieldValue::Bytes(f)) => {
                a.len() == f.len() && len / 8 <= a.len() && (len / 8 < a.len() || len % 8 == 0)
                    && bytes_prefix_equal(a.as_slice(), f.as_slice(), len)
            },
            _ => match (self.as_int(), field.as_int()) {
                (Some((ab, av)), Some((fb, fv))) => {
                    if ab != fb || len > ab as usize {
                        false
                    } else if len == 0 {
                        true
                    } else {
                        let shift: u32 = (ab as usize - len) as u32;
                        av >> shift == fv >> shift
                    }
                },
                _ => false,
            },
        }
    }
}

/// The four ways in which a key can match a field.
#[derive(Debug, Clone, Copy, PartialEq, Eq, Structural, Hash)]
pub enum MatchKind {
    Exact,
    Ternary,
    Range,
    LongestPrefix,
}

/// A ternary key: any field, one value, or a value under a mask.
#[derive(Debug, Eq, Hash)]
pub enum Ternary {
    DontCare,
    Value(FieldValue),
    Masked(FieldValue, FieldValue),
}

/// What a [`Ternary`] stands for.
pub enum TernaryView {
    DontCare,
    Value(FieldView),
    Masked(FieldView, FieldView),
}

impl View for Ternary {
    type V = TernaryView;

    open spec fn view(&self) -> TernaryView {
        match self {
            Ternary::DontCare => TernaryView::DontCare,
            Ternary::Value(v) => TernaryView::Value(v@),
            Ternary::Masked(v, m) => TernaryView::Masked(v@, m@),
        }
    }
}

impl TernaryView {
    /// Whether the key matches `field`.
    pub open spec fn matches(self, field: FieldView) -> bool {
        match self {
            TernaryView::DontCare => true,
            TernaryView::Value(v) => field == v,
            TernaryView::Masked(v, m) => masked_equal(field, v, m),
        }
    }
}

impl Ternary {
    /// Whether the key matches `field`.
    pub fn matches(&self, field: &FieldValue) -> (r: bool)
        ensures
            r == self@.matches(field@),
    {
        match self {
            Ternary::DontCare => true,
            Ternary::Value(v) => *field == *v,
            Ternary::Masked(v, m) => field.masked_equal(v, m),
        }
    }
}

/// Two ternary keys are equal where they are of the same form, values and
/// mask, whatever fields they match.
impl PartialEq for Ternary {
    fn eq(&self, other: &Ternary) -> (r: bool) {
        match (self, other) {
            (Ternary::DontCare, Ternary::DontCare) => true,
            (Ternary::Value(a), Ternary::Value(b)) => *a == *b,
            (Ternary::Masked(a, m), Ternary::Masked(b, n)) => *a == *b && *m == *n,
            _ => false,
        }
    }
}

impl PartialEqSpecImpl for Ternary {
    open spec fn obeys_eq_spec() -> bool {
        true
    }

    open spec fn eq_spec(&self, other: &Ternary) -> bool {
        self@ == other@
    }
}

impl Clone for Ternary {
    fn clone(&self) -> (r: Self)
        ensures
            r@ == self@,
    {
        match self {
            Ternary::DontCare => Ternary::DontCare,
            Ternary::Value(v) => Ternary::Value(v.clone()),
            Ternary::Masked(v, m) => Ternary::Masked(v.clone(), m.clone()),
        }
    }
}

/// One position of a table entry's key.
#[derive(Debug, Eq, Hash)]
pub enum MatchKey {
    /// Matches the one value.
    Exact(FieldValue),
    /// Matches by a ternary key.
    Ternary(Ternary),
    /// Matches the values from the first to the second, both included.
    Range(FieldValue, FieldValue),
    /// Matches the fields that share the address's first bits, as many as
    /// the length says.
    LongestPrefix(FieldValue, usize),
}

/// What a [`MatchKey`] stands for.
pub enum KeyView {
    Exact(FieldView),
    Ternary(TernaryView),
    Range(FieldView, FieldView),
    LongestPrefix(FieldView, nat),
}

impl View for MatchKey {
    type V = KeyView;

    open spec fn view(&self) -> KeyView {
        match self {
            MatchKey::Exact(v) => KeyView::Exact(v@),
            MatchKey::Ternary(t) => KeyView::Ternary(t@),
            MatchKey::Range(l, h) => KeyView::Range(l@, h@),
            MatchKey::LongestPrefix(a, n) => KeyView::LongestPrefix(a@, *n as nat),
        }
    }
}

impl KeyView {
    /// The way in which the key matches.
    pub open spec fn kind(self) -> MatchKind {
        match self {
            KeyView::Exact(_) => MatchKind::Exact,
            KeyView::Ternary(_) => MatchKind::Ternary,
            KeyView::Range(_, _) => MatchKind::Range,
            KeyView::LongestPrefix(_, _) => MatchKind::LongestPrefix,
        }
    }

    /// Whether the key matches `field`.
    pub open spec fn matches(self, field: FieldView) -> bool {
        match self {
            KeyView::Exact(v) => field == v,
            KeyView::Ternary(t) => t.matches(field),
            KeyView::Range(l, h) => in_range(field, l, h),
            KeyView::LongestPrefix(a, n) => prefix_covers(a, n, field),
        }
    }

    /// The length of the prefix of a longest-prefix key; 0 for the others.
    pub open spec fn prefix_len(self) -> nat {
        match self {
            KeyView::LongestPrefix(_, n) => n,
            _ => 0,
        }
    }
}

impl MatchKey {
    /// The way in which the key matches.
    pub fn kind(&self) -> (k: MatchKind)
        ensures
            k == self@.kind(),
    {
        match self {
            MatchKey::Exact(_) => MatchKind::Exact,
            MatchKey::Ternary(_) => MatchKind::Ternary,
            MatchKey::Range(_, _) => MatchKind::Range,
            MatchKey::LongestPrefix(_, _) => MatchKind::LongestPrefix,
        }
    }

    /// Whether the key matches `field`.
    pub fn matches(&self, field: &FieldValue) -> (r: bool)
        ensures
            r == self@.matches(field@),
    {
        match self {
            MatchKey::Exact(v) => *field == *v,
            MatchKey::Ternary(t) => t.matches(field),
            MatchKey::Range(l, h) => field.in_range(l, h),
            MatchKey::LongestPrefix(a, n) => a.prefix_covers(*n, field),
        }
    }

    /// The length of the prefix of a longest-prefix key; 0 for the others.
    pub fn prefix_len(&self) -> (n: usize)
        ensures
            n == self@.prefix_len(),
    {
        match self {
            MatchKey::LongestPrefix(_, n) => *n,
            _ => 0,
        }
    }
}

/// Two keys are equal where they are of the same form and values, whatever
/// fields they match.
impl PartialEq for MatchKey {
    fn eq(&self, other: &MatchKey) -> (r: bool) {
        match (self, other) {
            (MatchKey::Exact(a), MatchKey::Exact(b)) => *a == *b,
            (MatchKey::Ternary(a), MatchKey::Ternary(b)) => *a == *b,
            (MatchKey::Range(a, c), MatchKey::Range(b, d)) => *a == *b && *c == *d,
            (MatchKey::LongestPrefix(a, m), MatchKey::LongestPrefix(b, n)) => *a == *b && *m
                == *n,
            _ => false,
        }
    }
}

impl PartialEqSpecImpl for MatchKey {
    open spec fn obeys_eq_spec() -> bool {
        true
    }

    open spec fn eq_spec(&self, other: &MatchKey) -> bool {
        self@ == other@
    }
}

impl Clone for MatchKey {
    fn clone(&self) -> (r: Self)
        ensures
            r@ == self@,
    {
        match self {
            MatchKey::Exact(v) => MatchKey::Exact(v.clone()),
            MatchKey::Ternary(t) => MatchKey::Ternary(t.clone()),
            MatchKey::Range(l, h) => MatchKey::Range(l.clone(), h.clone()),
            MatchKey::LongestPrefix(a, n) => MatchKey::LongestPrefix(a.clone(), *n),
        }
    }
}

} // verus!

//! Elements of the Pallas base field, held as their canonical 32-byte
//! little-endian encoding.
//!
//! The arithmetic itself is done by `pasta_curves`; this module states what
//! each operation returns over the integer that the bytes encode.

use pasta_curves::group::ff::PrimeField;
use pasta_curves::Fp;
use vstd::prelude::*;

verus! {

/// The integer that a little-endian byte string encodes.
pub open spec fn le_value(bytes: Seq<u8>) -> nat
    decreases bytes.len(),
{
    if bytes.len() == 0 {
        0
    } else {
        bytes[0] as nat + 256 * le_value(bytes.drop_first())
    }
}

/// The order of the Pallas base field:
/// `0x40000000000000000000000000000000224698fc094cf91b992d30ed00000001`.
pub open spec fn modulus() -> nat {
    0x4000_0000_0000_0000_0000_0000_0000_0000nat * 0x1_0000_0000_0000_0000nat
        * 0x1_0000_0000_0000_0000nat + 0x2246_98fc_094c_f91b_992d_30ed_0000_0001nat
}

/// What reducing modulo the field's order does to an integer below twice
/// the order.
pub proof fn lemma_reduce(x: int)
    requires
        0 <= x < 2 * modulus(),
    ensures
        x % (modulus() as int) == if x < modulus() {
            x
        } else {
            x - modulus()
        },
{
    let p = modulus() as int;
    if x < p {
        vstd::arithmetic::div_mod::lemma_small_mod(x as nat, p as nat);
    } else {
        vstd::arithmetic::div_mod::lemma_fundamental_div_mod_converse(x, p, 1, x - p);
    }
}

/// The encoding of a value below 256: that byte, then 31 zero bytes.
pub open spec fn small_repr(b: u8) -> Seq<u8> {
    Seq::new(32, |i: int| if i == 0 { b } else { 0u8 })
}

/// A byte string of zeros encodes zero.
pub proof fn lemma_zero_bytes(bytes: Seq<u8>)
    requires
        forall|i: int| 0 <= i < bytes.len() ==> bytes[i] == 0,
    ensures
        le_value(bytes) == 0,
    decreases bytes.len(),
{
    if bytes.len() > 0 {
        lemma_zero_bytes(bytes.drop_first());
    }
}

/// `small_repr(b)` encodes `b`.
pub proof fn lemma_small_repr(b: u8)
    ensures
        le_value(small_repr(b)) == b,
        le_value(small_repr(b)) < modulus(),
{
    lemma_zero_bytes(small_repr(b).drop_first());
}

/// Two byte strings of one length that encode the same integer are equal.
pub proof fn lemma_le_value_injective(a: Seq<u8>, b: Seq<u8>)
    requires
        a.len() == b.len(),
        le_value(a) == le_value(b),
    ensures
        a == b,
    decreases a.len(),
{
    if a.len() > 0 {
        let ra = le_value(a.drop_first());
        let rb = le_value(b.drop_first());
        assert(a[0] as nat + 256 * ra == b[0] as nat + 256 * rb);
        assert(a[0] == b[0] && ra == rb) by (nonlinear_arith)
            requires
                a[0] as nat + 256 * ra == b[0] as nat + 256 * rb,
                a[0] < 256,
                b[0] < 256,
        ;
        lemma_le_value_injective(a.drop_first(), b.drop_first());
        assert(a =~= seq![a[0]] + a.drop_first());
        assert(b =~= seq![b[0]] + b.drop_first());
    } else {
        assert(a =~= b);
    }
}

/// `Fp::from_repr` of `pasta_curves`: the bytes are accepted exactly when the
/// integer they encode is below the field's order.
#[verifier::external_body]
fn repr_is_canonical(bytes: &[u8; 32]) -> (ok: bool)
    ensures
        ok == (le_value(bytes@) < modulus()),
{
    bool::from(Fp::from_repr(*bytes).is_some())
}

/// The order `<` of `pasta_curves::Fp`, which compares the canonical encodings
/// from the most significant byte down: the order of the encoded integers.
#[verifier::external_body]
fn repr_lt(a: &[u8; 32], b: &[u8; 32]) -> (r: bool)
    requires
        le_value(a@) < modulus(),
        le_value(b@) < modulus(),
    ensures
        r == (le_value(a@) < le_value(b@)),
{
    Fp::from_repr(*a).unwrap() < Fp::from_repr(*b).unwrap()
}

/// The operator `+` of `pasta_curves::Fp`: the sum modulo the field's order,
/// in canonical encoding.
#[verifier::external_body]
fn repr_add(a: &[u8; 32], b: &[u8; 32]) -> (r: [u8; 32])
    requires
        le_value(a@) < modulus(),
        le_value(b@) < modulus(),
    ensures
        le_value(r@) == (le_value(a@) + le_value(b@)) % modulus(),
{
    (Fp::from_repr(*a).unwrap() + Fp::from_repr(*b).unwrap()).to_repr()
}

/// The operator `-` of `pasta_curves::Fp`: the difference modulo the field's
/// order, in canonical encoding.
#[verifier::external_body]
fn repr_sub(a: &[u8; 32], b: &[u8; 32]) -> (r: [u8; 32])
    requires
        le_value(a@) < modulus(),
        le_value(b@) < modulus(),
    ensures
        le_value(r@) == (le_value(a@) + modulus() - le_value(b@)) % (modulus() as int),
{
    (Fp::from_repr(*a).unwrap() - Fp::from_repr(*b).unwrap()).to_repr()
}

/// The unary `-` of `pasta_curves::Fp`: the additive inverse modulo the
/// field's order, in canonical encoding.
#[verifier::external_body]
fn repr_neg(a: &[u8; 32]) -> (r: [u8; 32])
    requires
        le_value(a@) < modulus(),
    ensures
        le_value(r@) == (modulus() - le_value(a@)) % (modulus() as int),
{
    (-Fp::from_repr(*a).unwrap()).to_repr()
}

/// An element of the Pallas base field.
///
/// The bytes are always the canonical encoding: they encode an integer below
/// `modulus()`.
#[derive(Clone, Copy, Debug, PartialEq, Eq)]
pub struct FieldElement {
    repr: [u8; 32],
}

/// The integers that a sequence of field elements stands for.
pub open spec fn values(s: Seq<FieldElement>) -> Seq<nat> {
    s.map_values(|f: FieldElement| f.value())
}

/// No entry is above a later one.
pub open spec fn non_decreasing(s: Seq<nat>) -> bool {
    forall|i: int, j: int| 0 <= i < j < s.len() ==> s[i] <= s[j]
}

/// Every element of the sequence is canonical.
pub open spec fn all_canonical(s: Seq<FieldElement>) -> bool {
    forall|i: int| 0 <= i < s.len() ==> (#[trigger] s[i]).canonical()
}

/// There is one way to put given integers in order.
pub proof fn lemma_order_unique(a: Seq<nat>, b: Seq<nat>)
    requires
        non_decreasing(a),
        non_decreasing(b),
        a.to_multiset() == b.to_multiset(),
    ensures
        a == b,
{
    let leq = |x: nat, y: nat| x <= y;
    assert(vstd::relations::sorted_by(a, leq));
    assert(vstd::relations::sorted_by(b, leq));
    assert(vstd::relations::total_ordering(leq));
    vstd::seq_lib::lemma_sorted_unique(a, b, leq);
}

/// `sort` of std on `pasta_curves::Fp`, whose order is that of the integers:
/// the same elements, none above a later one.
#[verifier::external_body]
pub(crate) fn sort_by_value(v: Vec<FieldElement>) -> (r: Vec<FieldElement>)
    ensures
        values(r@).to_multiset() == values(v@).to_multiset(),
        non_decreasing(values(r@)),
{
    let mut f: Vec<Fp> = v.iter().map(|e| Fp::from_repr(e.repr).unwrap()).collect();
    f.sort();
    f.iter().map(|x| FieldElement { repr: x.to_repr() }).collect()
}

impl View for FieldElement {
    type V = Seq<u8>;

    /// The canonical encoding, 32 bytes.
    closed spec fn view(&self) -> Seq<u8> {
        self.repr@
    }
}

impl FieldElement {
    /// What holds of every element: 32 bytes that encode an integer below the
    /// field's order.
    #[verifier::type_invariant]
    pub open spec fn canonical(self) -> bool {
        &&& self@.len() == 32
        &&& le_value(self@) < modulus()
    }

    /// The integer that the element stands for.
    pub open spec fn value(self) -> nat {
        le_value(self@)
    }

    /// The element with the given canonical encoding, if it is one.
    pub fn from_repr(bytes: [u8; 32]) -> (r: Option<FieldElement>)
        ensures
            r.is_some() == (le_value(bytes@) < modulus()),
            r.is_some() ==> r.unwrap()@ == bytes@,
    {
        if repr_is_canonical(&bytes) {
            Some(FieldElement { repr: bytes })
        } else {
            None
        }
    }

    /// The element with the given encoding, known to be canonical.
    pub(crate) fn from_canonical(bytes: [u8; 32]) -> (r: FieldElement)
        requires
            le_value(bytes@) < modulus(),
        ensures
            r@ == bytes@,
    {
        FieldElement { repr: bytes }
    }

    /// The canonical encoding.
    pub fn to_repr(&self) -> (r: [u8; 32])
        ensures
            r@ == self@,
            le_value(r@) < modulus(),
    {
        proof {
            use_type_invariant(self);
        }
        self.repr
    }

    /// The element that stands for `b`.
    pub fn from_u8(b: u8) -> (r: FieldElement)
        ensures
            r@ == small_repr(b),
            r.value() == b,
    {
        let mut repr = [0u8; 32];
        repr[0] = b;
        proof {
            assert(repr@ =~= small_repr(b));
            lemma_small_repr(b);
        }
        FieldElement { repr }
    }

    /// Zero.
    pub fn zero() -> (r: FieldElement)
        ensures
            r@ == small_repr(0),
            r.value() == 0,
    {
        FieldElement::from_u8(0)
    }

    /// One.
    pub fn one() -> (r: FieldElement)
        ensures
            r@ == small_repr(1),
            r.value() == 1,
    {
        FieldElement::from_u8(1)
    }

    /// Whether `self` is below `other` as an integer.
    pub fn lt(&self, other: &FieldElement) -> (r: bool)
        ensures
            r == (self.value() < other.value()),
    {
        proof {
            use_type_invariant(self);
            use_type_invariant(other);
        }
        repr_lt(&self.repr, &other.repr)
    }

    /// The sum in the field.
    pub fn plus(&self, other: &FieldElement) -> (r: FieldElement)
        ensures
            r.value() == (self.value() + other.value()) % modulus(),
    {
        proof {
            use_type_invariant(self);
            use_type_invariant(other);
        }
        let repr = repr_add(&self.repr, &other.repr);
        FieldElement { repr }
    }

    /// The difference in the field.
    pub fn minus(&self, other: &FieldElement) -> (r: FieldElement)
        ensures
            r.value() == (self.value() + modulus() - other.value()) % (modulus() as int),
    {
        proof {
            use_type_invariant(self);
            use_type_invariant(other);
        }
        let repr = repr_sub(&self.repr, &other.repr);
        FieldElement { repr }
    }

    /// The additive inverse in the field.
    pub fn negated(&self) -> (r: FieldElement)
        ensures
            r.value() == (modulus() - self.value()) % (modulus() as int),
    {
        proof {
            use_type_invariant(self);
        }
        let repr = repr_neg(&self.repr);
        FieldElement { repr }
    }
}

} // verus!

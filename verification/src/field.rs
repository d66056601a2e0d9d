//! Elements of the prime field over which the constraint system is stated.
//!
//! A [`FieldElement`] keeps the canonical little-endian bytes of a residue
//! modulo [`modulus`]. The arithmetic itself is done by the `halo2curves`
//! BN254 scalar field that `spartan2` re-exports; the four functions that
//! call it are trusted, and are the only unverified code of the crate.

use ff::PrimeField;
use spartan2::provider::bn254::types::Scalar;
use vstd::prelude::*;

verus! {

/// The prime order of the BN254 scalar field.
pub open spec fn modulus() -> nat {
    0x30644e72e131a029b85045b68181585d2833e84879b9709143e1f593f0000001nat
}

/// The number that the bytes `bytes[from..]` stand for, least significant
/// byte first.
pub open spec fn le_from(bytes: Seq<u8>, from: int) -> nat
    decreases bytes.len() - from,
{
    if from < 0 || from >= bytes.len() {
        0
    } else {
        bytes[from] as nat + 256 * le_from(bytes, from + 1)
    }
}

/// The number that a little-endian byte string stands for.
pub open spec fn le_value(bytes: Seq<u8>) -> nat {
    le_from(bytes, 0)
}

/// The residue class of a signed integer: non-negative `c` is itself, negative
/// `c` is the additive inverse of `|c|`.
pub open spec fn field_of(c: int) -> nat {
    (c % (modulus() as int)) as nat
}

/// The little-endian bytes of the modulus.
pub fn modulus_bytes() -> (m: [u8; 32])
    ensures
        le_value(m@) == modulus(),
{
    let m: [u8; 32] = [
        0x01, 0x00, 0x00, 0xf0, 0x93, 0xf5, 0xe1, 0x43,
        0x91, 0x70, 0xb9, 0x79, 0x48, 0xe8, 0x33, 0x28,
        0x5d, 0x58, 0x81, 0x81, 0xb6, 0x45, 0x50, 0xb8,
        0x29, 0xa0, 0x31, 0xe1, 0x72, 0x4e, 0x64, 0x30,
    ];
    proof {
        reveal_with_fuel(le_from, 33);
        assert(le_from(m@, 0) == modulus());
    }
    m
}

/// A residue modulo [`modulus`], held as its canonical 32 little-endian bytes.
#[derive(Clone, Copy, Debug, PartialEq, Eq)]
pub struct FieldElement {
    repr: [u8; 32],
}

impl FieldElement {
    /// The canonical bytes of the element.
    pub closed spec fn bytes(&self) -> Seq<u8> {
        self.repr@
    }

    /// The residue, as a natural number below the modulus.
    pub open spec fn value(&self) -> nat {
        le_value(self.bytes())
    }

    #[verifier::type_invariant]
    spec fn canonical(&self) -> bool {
        le_value(self.repr@) < modulus()
    }

    /// Reads an element from its canonical bytes; `None` when the bytes stand
    /// for a number that is not below the modulus.
    pub fn from_bytes(bytes: [u8; 32]) -> (r: Option<FieldElement>)
        ensures
            r is Some <==> le_value(bytes@) < modulus(),
            r matches Some(e) ==> e.bytes() == bytes@,
    {
        let m = modulus_bytes();
        let mut below = false;
        let mut same = true;
        let mut i: usize = 32;
        while i > 0
            invariant
                i <= 32,
                below == (le_from(bytes@, i as int) < le_from(m@, i as int)),
                same == (le_from(bytes@, i as int) == le_from(m@, i as int)),
            decreases i,
        {
            i = i - 1;
            below = below || (same && bytes[i] < m[i]);
            same = same && bytes[i] == m[i];
        }
        if below {
            Some(FieldElement { repr: bytes })
        } else {
            None
        }
    }

    /// The canonical bytes of the element.
    pub fn to_bytes(&self) -> (b: [u8; 32])
        ensures
            b@ == self.bytes(),
            le_value(b@) < modulus(),
    {
        proof {
            use_type_invariant(self);
        }
        self.repr
    }

    /// Whether the element is the additive identity.
    pub fn is_zero(&self) -> (zero: bool)
        ensures
            zero == (self.value() == 0),
    {
        let mut zero = true;
        let mut i: usize = 32;
        while i > 0
            invariant
                i <= 32,
                zero == (le_from(self.repr@, i as int) == 0),
            decreases i,
        {
            i = i - 1;
            zero = zero && self.repr[i] == 0;
        }
        zero
    }
}

/// Trusted, not verified. Calls `Scalar::from(u64)` of `halo2curves`, which
/// embeds the integer in the field, and `PrimeField::to_repr`, which gives
/// the canonical little-endian bytes of an element. Every `u64` is below the
/// modulus, so the residue is the integer itself.
#[verifier::external_body]
pub(crate) fn scalar_from_u64(v: u64) -> (r: FieldElement)
    ensures
        r.value() == v,
{
    FieldElement { repr: Scalar::from(v).to_repr().into() }
}

/// Trusted, not verified. Calls `Add::add` of `Scalar`, which is addition
/// modulo the field's order. `PrimeField::from_repr` reads each argument from
/// its bytes, and accepts them because every [`FieldElement`] is canonical;
/// `PrimeField::to_repr` hands the sum back as canonical bytes.
#[verifier::external_body]
pub(crate) fn scalar_add(a: &FieldElement, b: &FieldElement) -> (r: FieldElement)
    ensures
        r.value() == (a.value() + b.value()) % modulus(),
{
    let x = Scalar::from_repr(a.repr.into()).unwrap();
    let y = Scalar::from_repr(b.repr.into()).unwrap();
    FieldElement { repr: (x + y).to_repr().into() }
}

/// Trusted, not verified. Calls `Sub::sub` of `Scalar`, which is subtraction
/// modulo the field's order, between `PrimeField::from_repr` on the arguments
/// and `PrimeField::to_repr` on the difference.
#[verifier::external_body]
pub(crate) fn scalar_sub(a: &FieldElement, b: &FieldElement) -> (r: FieldElement)
    ensures
        r.value() == (a.value() - b.value()) % (modulus() as int),
{
    let x = Scalar::from_repr(a.repr.into()).unwrap();
    let y = Scalar::from_repr(b.repr.into()).unwrap();
    FieldElement { repr: (x - y).to_repr().into() }
}

/// Trusted, not verified. Calls `Mul::mul` of `Scalar`, which is
/// multiplication modulo the field's order, between `PrimeField::from_repr`
/// on the arguments and `PrimeField::to_repr` on the product.
#[verifier::external_body]
pub(crate) fn scalar_mul(a: &FieldElement, b: &FieldElement) -> (r: FieldElement)
    ensures
        r.value() == (a.value() * b.value()) % modulus(),
{
    let x = Scalar::from_repr(a.repr.into()).unwrap();
    let y = Scalar::from_repr(b.repr.into()).unwrap();
    FieldElement { repr: (x * y).to_repr().into() }
}

/// Maps a signed coefficient into the field: a non-negative number to its
/// natural embedding, a negative one to the additive inverse of its magnitude.
pub fn i64_to_f(num: i64) -> (r: FieldElement)
    ensures
        r.value() == field_of(num as int),
        num >= 0 ==> r.value() == num,
        num < 0 ==> r.value() == modulus() + num,
{
    if num < 0 {
        let magnitude: u64 = if num == i64::MIN {
            0x8000_0000_0000_0000u64
        } else {
            (-num) as u64
        };
        let zero = scalar_from_u64(0);
        let m = scalar_from_u64(magnitude);
        scalar_sub(&zero, &m)
    } else {
        scalar_from_u64(num as u64)
    }
}

/// A coefficient and its negation cancel in the field.
pub proof fn lemma_negation_cancels(c: int)
    ensures
        (field_of(c) + field_of(-c)) % modulus() == 0,
{
    let p = modulus() as int;
    vstd::arithmetic::div_mod::lemma_add_mod_noop(c, -c, p);
}

} // verus!

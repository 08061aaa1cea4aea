//! The integers modulo the field prime of the curve.

use crate::arithmetic::bytes::{be_value, equal, is_odd, is_zero, less_than, lemma_be_value_32, lemma_be_value_injective, lemma_be_value_zeros};
use crate::arithmetic::modular::{add_m, add_mod, inv_m, inverse_or_zero, mul_m, mul_mod, odd_modulus, pow_m, pow_mod, sub_m, sub_mod};
use vstd::prelude::*;

verus! {

/// The prime `p = 2^256 - 2^224 + 2^192 + 2^96 - 1` of the coordinate field.
pub open spec fn field_modulus() -> nat {
    0xffffffff00000001000000000000000000000000ffffffffffffffffffffffffnat
}

/// `(p + 1) / 4`: raising a square to this power gives one of its roots,
/// because `p` leaves 3 when divided by 4.
pub open spec fn sqrt_exponent() -> nat {
    0x3fffffffc0000000400000000000000000000000400000000000000000000000nat
}

/// Sum in the field.
pub open spec fn f_add(a: nat, b: nat) -> nat {
    add_m(a, b, field_modulus())
}

/// Difference in the field.
pub open spec fn f_sub(a: nat, b: nat) -> nat {
    sub_m(a, b, field_modulus())
}

/// Product in the field.
pub open spec fn f_mul(a: nat, b: nat) -> nat {
    mul_m(a, b, field_modulus())
}

/// Inverse in the field, with 0 for what has none.
pub open spec fn f_inv(a: nat) -> nat {
    inv_m(a, field_modulus())
}

/// The root of `a` that the exponentiation finds, where `a` is a square.
pub open spec fn f_sqrt(a: nat) -> Option<nat> {
    let c = pow_m(a, sqrt_exponent(), field_modulus());
    if f_mul(c, c) == a {
        Some(c)
    } else {
        None
    }
}

/// An integer modulo the field prime, held as 32 big-endian bytes of its
/// least non-negative representative.
#[derive(Clone, Copy, Debug, PartialEq, Eq)]
pub struct FieldElement {
    bytes: [u8; 32],
}

impl View for FieldElement {
    type V = nat;

    closed spec fn view(&self) -> nat {
        be_value(self.bytes@)
    }
}

fn modulus_bytes() -> (m: [u8; 32])
    ensures
        be_value(m@) == field_modulus(),
        odd_modulus(be_value(m@)),
{
    let m: [u8; 32] = [
        0xff, 0xff, 0xff, 0xff, 0x00, 0x00, 0x00, 0x01,
        0x00, 0x00, 0x00, 0x00, 0x00, 0x00, 0x00, 0x00,
        0x00, 0x00, 0x00, 0x00, 0xff, 0xff, 0xff, 0xff,
        0xff, 0xff, 0xff, 0xff, 0xff, 0xff, 0xff, 0xff,
    ];
    proof {
        lemma_be_value_32(m@);
    }
    m
}

fn sqrt_exponent_bytes() -> (e: [u8; 32])
    ensures
        be_value(e@) == sqrt_exponent(),
{
    let e: [u8; 32] = [
        0x3f, 0xff, 0xff, 0xff, 0xc0, 0x00, 0x00, 0x00,
        0x40, 0x00, 0x00, 0x00, 0x00, 0x00, 0x00, 0x00,
        0x00, 0x00, 0x00, 0x00, 0x40, 0x00, 0x00, 0x00,
        0x00, 0x00, 0x00, 0x00, 0x00, 0x00, 0x00, 0x00,
    ];
    proof {
        lemma_be_value_32(e@);
    }
    e
}

impl FieldElement {
    /// The representative is reduced.
    #[verifier::type_invariant]
    pub closed spec fn wf(self) -> bool {
        be_value(self.bytes@) < field_modulus()
    }

    /// A well-formed element is below the modulus.
    pub proof fn lemma_reduced(self)
        requires
            self.wf(),
        ensures
            self@ < field_modulus(),
    {
    }

    /// Well-formed elements with one value are one element.
    pub proof fn lemma_injective(self, other: FieldElement)
        requires
            self@ == other@,
        ensures
            self == other,
    {
        lemma_be_value_injective(self.bytes@, other.bytes@);
        assert(self.bytes =~= other.bytes);
    }

    /// Zero.
    pub fn zero() -> (r: FieldElement)
        ensures
            r@ == 0,
            r.wf(),
    {
        let bytes: [u8; 32] = [0u8; 32];
        proof {
            lemma_be_value_zeros(bytes@);
        }
        FieldElement { bytes }
    }

    /// The element that reduced bytes denote.
    pub(crate) fn from_reduced_bytes(bytes: [u8; 32]) -> (r: FieldElement)
        requires
            be_value(bytes@) < field_modulus(),
        ensures
            r@ == be_value(bytes@),
            r.wf(),
    {
        FieldElement { bytes }
    }

    /// The element of a small number.
    pub fn from_u8(v: u8) -> (r: FieldElement)
        ensures
            r@ == v,
            r.wf(),
    {
        let mut bytes: [u8; 32] = [0u8; 32];
        bytes[31] = v;
        proof {
            lemma_be_value_32(bytes@);
        }
        FieldElement { bytes }
    }

    /// The element that the bytes denote, if they denote a number below the
    /// modulus.
    pub fn from_bytes(bytes: &[u8; 32]) -> (r: Option<FieldElement>)
        ensures
            r is Some <==> be_value(bytes@) < field_modulus(),
            r matches Some(e) ==> e@ == be_value(bytes@) && e.wf(),
    {
        let m = modulus_bytes();
        if less_than(bytes, &m) {
            Some(FieldElement { bytes: *bytes })
        } else {
            None
        }
    }

    /// The big-endian bytes of the representative.
    pub fn to_bytes(&self) -> (r: [u8; 32])
        ensures
            be_value(r@) == self@,
            self@ < field_modulus(),
    {
        proof {
            use_type_invariant(self);
        }
        self.bytes
    }

    /// `self + rhs`.
    pub fn add(&self, rhs: &FieldElement) -> (r: FieldElement)
        ensures
            r@ == f_add(self@, rhs@),
            r.wf(),
    {
        proof {
            use_type_invariant(self);
            use_type_invariant(rhs);
        }
        let m = modulus_bytes();
        FieldElement { bytes: add_mod(&self.bytes, &rhs.bytes, &m) }
    }

    /// `self - rhs`.
    pub fn sub(&self, rhs: &FieldElement) -> (r: FieldElement)
        ensures
            r@ == f_sub(self@, rhs@),
            r.wf(),
    {
        proof {
            use_type_invariant(self);
            use_type_invariant(rhs);
        }
        let m = modulus_bytes();
        FieldElement { bytes: sub_mod(&self.bytes, &rhs.bytes, &m) }
    }

    /// `self * rhs`.
    pub fn mul(&self, rhs: &FieldElement) -> (r: FieldElement)
        ensures
            r@ == f_mul(self@, rhs@),
            r.wf(),
    {
        let m = modulus_bytes();
        FieldElement { bytes: mul_mod(&self.bytes, &rhs.bytes, &m) }
    }

    /// The inverse of `self`, and zero for an element without one.
    pub fn invert(&self) -> (r: FieldElement)
        ensures
            r@ == f_inv(self@),
            r.wf(),
    {
        proof {
            use_type_invariant(self);
        }
        let m = modulus_bytes();
        FieldElement { bytes: inverse_or_zero(&self.bytes, &m) }
    }

    /// A square root of `self`, if the exponentiation by `(p + 1) / 4` finds
    /// one.
    pub fn sqrt(&self) -> (r: Option<FieldElement>)
        ensures
            r is Some <==> f_sqrt(self@) is Some,
            r matches Some(y) ==> f_sqrt(self@) == Some(y@) && y.wf(),
    {
        let m = modulus_bytes();
        let e = sqrt_exponent_bytes();
        let candidate = FieldElement { bytes: pow_mod(&self.bytes, &e, &m) };
        let square = candidate.mul(&candidate);
        if square.equals(self) {
            Some(candidate)
        } else {
            None
        }
    }

    /// Whether the two elements are equal.
    pub fn equals(&self, other: &FieldElement) -> (r: bool)
        ensures
            r == (self@ == other@),
            r == (*self == *other),
    {
        let r = equal(&self.bytes, &other.bytes);
        proof {
            if r {
                assert(self.bytes =~= other.bytes);
            }
        }
        r
    }

    /// Whether the element is zero.
    pub fn is_zero(&self) -> (r: bool)
        ensures
            r == (self@ == 0),
    {
        is_zero(&self.bytes)
    }

    /// Whether the representative is odd.
    pub fn is_odd(&self) -> (r: bool)
        ensures
            r == (self@ % 2 == 1),
    {
        is_odd(&self.bytes)
    }
}

} // verus!

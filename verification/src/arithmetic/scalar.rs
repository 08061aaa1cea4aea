//! The integers modulo the order of the group of curve points.

use crate::arithmetic::bytes::{be_value, equal, is_zero, less_than, lemma_be_value_32, lemma_be_value_bound_32, lemma_be_value_injective, lemma_be_value_zeros};
use crate::arithmetic::modular::{
    add_mod, has_inverse, inv_m, inverse_or_zero, is_inverse, lemma_inv_m, mul_m, mul_mod, odd_modulus,
    sub_m, sub_mod,
};
use vstd::arithmetic::div_mod::{
    lemma_fundamental_div_mod_converse, lemma_mod_multiples_vanish, lemma_sub_mod_noop_right,
};
use vstd::prelude::*;

verus! {

/// The prime order `n` of the group of curve points.
pub open spec fn group_order() -> nat {
    0xffffffff00000000ffffffffffffffffbce6faada7179e84f3b9cac2fc632551nat
}

/// `(n - 1) / 2`, the largest scalar of the low half.
pub open spec fn half_order() -> nat {
    0x7fffffff800000007fffffffffffffffde737d56d38bcf4279dce5617e3192a8nat
}

/// Product of scalars.
pub open spec fn s_mul(a: nat, b: nat) -> nat {
    mul_m(a, b, group_order())
}

/// Inverse of a scalar, with 0 for what has none.
pub open spec fn s_inv(a: nat) -> nat {
    inv_m(a, group_order())
}

/// The scalar `-a`.
pub open spec fn s_neg(a: nat) -> nat {
    sub_m(0, a, group_order())
}

/// Whether the scalar lies in the high half, above `(n - 1) / 2`.
pub open spec fn is_high(a: nat) -> bool {
    a > half_order()
}

/// The representative of the low half among `a` and `-a`.
pub open spec fn low_half(a: nat) -> nat {
    if is_high(a) {
        s_neg(a)
    } else {
        a
    }
}

/// Whether the bytes denote a scalar that is not zero: a number from 1 to
/// `n - 1`.
pub open spec fn is_nonzero_scalar(bytes: Seq<u8>) -> bool {
    0 < be_value(bytes) < group_order()
}

/// For a scalar that is not zero, exactly one of `a` and `-a` is low, and
/// negating twice gives `a` back.
pub proof fn lemma_negation(a: nat)
    requires
        0 < a < group_order(),
    ensures
        s_neg(a) == group_order() - a,
        0 < s_neg(a) < group_order(),
        is_high(a) <==> !is_high(s_neg(a)),
        s_neg(s_neg(a)) == a,
        !is_high(low_half(a)),
        low_half(s_neg(a)) == low_half(a),
{
    let n = group_order() as int;
    assert((0 - a) % n == n - a) by {
        lemma_fundamental_div_mod_converse(0 - a, n, -1, n - a);
    }
    let b = (n - a) as nat;
    assert((0 - b) % n == n - b) by {
        lemma_fundamental_div_mod_converse(0 - b, n, -1, n - b);
    }
}

/// The inverse of `-s` is the negation of the inverse of `s`.
pub proof fn lemma_inverse_of_negation(s: nat)
    requires
        0 < s < group_order(),
        has_inverse(s, group_order()),
    ensures
        0 < s_inv(s) < group_order(),
        has_inverse(s_neg(s), group_order()),
        s_inv(s_neg(s)) == s_neg(s_inv(s)),
{
    let n = group_order();
    lemma_inv_m(s, n);
    let x = s_inv(s);
    assert(x != 0) by {
        assert(s * 0 == 0);
    }
    lemma_negation(s);
    lemma_negation(x);
    let s2 = (n - s) as nat;
    let x2 = (n - x) as nat;
    assert(s2 * x2 == n * (n - x - s) + s * x) by (nonlinear_arith)
        requires
            s2 == n - s,
            x2 == n - x,
    ;
    lemma_mod_multiples_vanish(n - x - s, (s * x) as int, n as int);
    assert(is_inverse(s2, x2, n));
    lemma_inv_m(s2, n);
}

/// Dividing by `-s` negates the quotient: `z / (-s) = -(z / s)`.
pub proof fn lemma_quotient_by_negation(z: nat, s: nat)
    requires
        0 < s < group_order(),
        has_inverse(s, group_order()),
    ensures
        s_mul(z, s_inv(s_neg(s))) == s_neg(s_mul(z, s_inv(s))),
{
    let n = group_order();
    lemma_inverse_of_negation(s);
    let x = s_inv(s);
    lemma_negation(x);
    let x2 = (n - x) as nat;
    assert(z * x2 == n * z + (0 - z * x)) by (nonlinear_arith)
        requires
            x2 == n - x,
    ;
    lemma_mod_multiples_vanish(z as int, 0 - z * x, n as int);
    lemma_sub_mod_noop_right(0, (z * x) as int, n as int);
}

/// An integer modulo the group order, held as 32 big-endian bytes of its
/// least non-negative representative.
#[derive(Clone, Copy, Debug, PartialEq, Eq)]
pub struct Scalar {
    bytes: [u8; 32],
}

impl View for Scalar {
    type V = nat;

    closed spec fn view(&self) -> nat {
        be_value(self.bytes@)
    }
}

fn order_bytes() -> (m: [u8; 32])
    ensures
        be_value(m@) == group_order(),
        odd_modulus(be_value(m@)),
{
    let m: [u8; 32] = [
        0xff, 0xff, 0xff, 0xff, 0x00, 0x00, 0x00, 0x00,
        0xff, 0xff, 0xff, 0xff, 0xff, 0xff, 0xff, 0xff,
        0xbc, 0xe6, 0xfa, 0xad, 0xa7, 0x17, 0x9e, 0x84,
        0xf3, 0xb9, 0xca, 0xc2, 0xfc, 0x63, 0x25, 0x51,
    ];
    proof {
        lemma_be_value_32(m@);
    }
    m
}

fn half_order_bytes() -> (m: [u8; 32])
    ensures
        be_value(m@) == half_order(),
{
    let m: [u8; 32] = [
        0x7f, 0xff, 0xff, 0xff, 0x80, 0x00, 0x00, 0x00,
        0x7f, 0xff, 0xff, 0xff, 0xff, 0xff, 0xff, 0xff,
        0xde, 0x73, 0x7d, 0x56, 0xd3, 0x8b, 0xcf, 0x42,
        0x79, 0xdc, 0xe5, 0x61, 0x7e, 0x31, 0x92, 0xa8,
    ];
    proof {
        lemma_be_value_32(m@);
    }
    m
}

impl Scalar {
    /// The representative is reduced.
    #[verifier::type_invariant]
    pub closed spec fn wf(self) -> bool {
        be_value(self.bytes@) < group_order()
    }

    /// A well-formed scalar is below the order.
    pub proof fn lemma_reduced(self)
        requires
            self.wf(),
        ensures
            self@ < group_order(),
    {
    }

    /// Scalars with one value are one scalar.
    pub proof fn lemma_injective(self, other: Scalar)
        requires
            self@ == other@,
        ensures
            self == other,
    {
        lemma_be_value_injective(self.bytes@, other.bytes@);
        assert(self.bytes =~= other.bytes);
    }

    /// Zero.
    pub fn zero() -> (r: Scalar)
        ensures
            r@ == 0,
            r.wf(),
    {
        let bytes: [u8; 32] = [0u8; 32];
        proof {
            lemma_be_value_zeros(bytes@);
        }
        Scalar { bytes }
    }

    /// The scalar that the bytes denote, if they denote a number below the
    /// order.
    pub fn from_bytes(bytes: &[u8; 32]) -> (r: Option<Scalar>)
        ensures
            r is Some <==> be_value(bytes@) < group_order(),
            r matches Some(e) ==> e@ == be_value(bytes@) && e.wf(),
    {
        let m = order_bytes();
        if less_than(bytes, &m) {
            Some(Scalar { bytes: *bytes })
        } else {
            None
        }
    }

    /// The number that the bytes denote, reduced modulo the order.
    pub fn from_bytes_reduced(bytes: &[u8; 32]) -> (r: Scalar)
        ensures
            r@ == be_value(bytes@) % group_order(),
            r.wf(),
    {
        let m = order_bytes();
        let zero: [u8; 32] = [0u8; 32];
        proof {
            lemma_be_value_zeros(zero@);
            lemma_be_value_bound_32(bytes@);
        }
        Scalar { bytes: add_mod(bytes, &zero, &m) }
    }

    /// The big-endian bytes of the representative.
    pub fn to_bytes(&self) -> (r: [u8; 32])
        ensures
            be_value(r@) == self@,
            self@ < group_order(),
    {
        proof {
            use_type_invariant(self);
        }
        self.bytes
    }

    /// `self * rhs`.
    pub fn mul(&self, rhs: &Scalar) -> (r: Scalar)
        ensures
            r@ == s_mul(self@, rhs@),
            r.wf(),
    {
        let m = order_bytes();
        Scalar { bytes: mul_mod(&self.bytes, &rhs.bytes, &m) }
    }

    /// The inverse of `self`, and zero for a scalar without one.
    pub fn invert(&self) -> (r: Scalar)
        ensures
            r@ == s_inv(self@),
            r.wf(),
    {
        proof {
            use_type_invariant(self);
        }
        let m = order_bytes();
        Scalar { bytes: inverse_or_zero(&self.bytes, &m) }
    }

    /// `-self`.
    pub fn negate(&self) -> (r: Scalar)
        ensures
            r@ == s_neg(self@),
            r.wf(),
    {
        proof {
            use_type_invariant(self);
        }
        let m = order_bytes();
        let zero: [u8; 32] = [0u8; 32];
        proof {
            lemma_be_value_zeros(zero@);
        }
        Scalar { bytes: sub_mod(&zero, &self.bytes, &m) }
    }

    /// Whether the two scalars are equal.
    pub fn equals(&self, other: &Scalar) -> (r: bool)
        ensures
            r == (self@ == other@),
            r == (*self == *other),
    {
        let r = equal(&self.bytes, &other.bytes);
        proof {
            if r {
                assert(self.bytes =~= other.bytes);
            }
        }
        r
    }

    /// Whether the scalar is zero.
    pub fn is_zero(&self) -> (r: bool)
        ensures
            r == (self@ == 0),
    {
        is_zero(&self.bytes)
    }

    /// Whether the scalar lies in the high half.
    pub fn is_high(&self) -> (r: bool)
        ensures
            r == is_high(self@),
    {
        let h = half_order_bytes();
        less_than(&h, &self.bytes)
    }
}

/// A scalar that is not zero.
#[derive(Clone, Copy, Debug, PartialEq, Eq)]
pub struct NonZeroScalar {
    scalar: Scalar,
}

impl View for NonZeroScalar {
    type V = nat;

    closed spec fn view(&self) -> nat {
        self.scalar@
    }
}

impl NonZeroScalar {
    /// The scalar is reduced and not zero.
    #[verifier::type_invariant]
    pub closed spec fn wf(self) -> bool {
        self.scalar.wf() && self.scalar@ != 0
    }

    /// A well-formed value lies from 1 to `n - 1`.
    pub proof fn lemma_range(self)
        requires
            self.wf(),
        ensures
            0 < self@ < group_order(),
    {
    }

    /// Values with one number are one value.
    pub proof fn lemma_injective(self, other: NonZeroScalar)
        requires
            self@ == other@,
        ensures
            self == other,
    {
        self.scalar.lemma_injective(other.scalar);
    }

    /// The scalar, if it is not zero.
    pub fn new(scalar: Scalar) -> (r: Option<NonZeroScalar>)
        ensures
            r is Some <==> scalar@ != 0,
            r matches Some(s) ==> s@ == scalar@ && s.wf(),
    {
        proof {
            use_type_invariant(scalar);
        }
        if scalar.is_zero() {
            None
        } else {
            Some(NonZeroScalar { scalar })
        }
    }

    /// The scalar that the bytes denote, if they denote a number from 1 to
    /// `n - 1`.
    pub fn from_bytes(bytes: &[u8; 32]) -> (r: Option<NonZeroScalar>)
        ensures
            r is Some <==> is_nonzero_scalar(bytes@),
            r matches Some(s) ==> s@ == be_value(bytes@) && s.wf(),
    {
        match Scalar::from_bytes(bytes) {
            Some(scalar) => NonZeroScalar::new(scalar),
            None => None,
        }
    }

    /// The scalar that the bytes denote, for bytes known to denote a number
    /// from 1 to `n - 1`.
    pub(crate) fn from_valid_bytes(bytes: [u8; 32]) -> (r: NonZeroScalar)
        requires
            is_nonzero_scalar(bytes@),
        ensures
            r@ == be_value(bytes@),
            r.wf(),
    {
        NonZeroScalar { scalar: Scalar { bytes } }
    }

    /// The same number as a plain scalar.
    pub fn to_scalar(&self) -> (r: Scalar)
        ensures
            r@ == self@,
            0 < self@ < group_order(),
            r.wf(),
    {
        proof {
            use_type_invariant(self);
            use_type_invariant(self.scalar);
        }
        self.scalar
    }

    /// The big-endian bytes of the representative.
    pub fn to_bytes(&self) -> (r: [u8; 32])
        ensures
            be_value(r@) == self@,
            is_nonzero_scalar(r@),
    {
        proof {
            use_type_invariant(self);
        }
        self.scalar.to_bytes()
    }

    /// The inverse, and zero if there is none.
    pub fn invert(&self) -> (r: Scalar)
        ensures
            r@ == s_inv(self@),
            r.wf(),
    {
        self.scalar.invert()
    }

    /// `-self`, which is not zero either.
    pub fn negate(&self) -> (r: NonZeroScalar)
        ensures
            r@ == s_neg(self@),
            r.wf(),
    {
        proof {
            use_type_invariant(self);
            lemma_negation(self@);
        }
        NonZeroScalar { scalar: self.scalar.negate() }
    }

    /// Whether the scalar lies in the high half.
    pub fn is_high(&self) -> (r: bool)
        ensures
            r == is_high(self@),
    {
        self.scalar.is_high()
    }
}

} // verus!

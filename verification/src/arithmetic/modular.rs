//! Arithmetic on 32-byte big-endian numbers modulo an odd modulus.
//!
//! The numbers are multiplied, inverted and raised to powers by the
//! `crypto-bigint` crate, which `elliptic-curve` re-exports. Each call
//! stands behind one function of this module whose contract states the
//! result as a number; nothing here is proved about the calls themselves.

use crate::arithmetic::bytes::be_value;
use elliptic_curve::bigint::modular::runtime_mod::{DynResidue, DynResidueParams};
use elliptic_curve::bigint::{Encoding, U256};
use vstd::arithmetic::div_mod::{lemma_mul_mod_noop_left, lemma_mul_mod_noop_right, lemma_small_mod};
use vstd::arithmetic::power::pow;
use vstd::prelude::*;

verus! {

/// `a + b` modulo `m`.
pub open spec fn add_m(a: nat, b: nat, m: nat) -> nat {
    (a + b) % m
}

/// `a - b` modulo `m`, between 0 and `m`.
pub open spec fn sub_m(a: nat, b: nat, m: nat) -> nat {
    ((a - b) % (m as int)) as nat
}

/// `a * b` modulo `m`.
pub open spec fn mul_m(a: nat, b: nat, m: nat) -> nat {
    (a * b) % m
}

/// `a` to the power `e`, modulo `m`.
pub open spec fn pow_m(a: nat, e: nat, m: nat) -> nat {
    (pow(a as int, e) % (m as int)) as nat
}

/// Whether `x` is the reduced inverse of `a` modulo `m`.
pub open spec fn is_inverse(a: nat, x: nat, m: nat) -> bool {
    x < m && (a * x) % m == 1
}

/// Whether `a` has an inverse modulo `m`.
pub open spec fn has_inverse(a: nat, m: nat) -> bool {
    exists|x: nat| is_inverse(a, x, m)
}

/// The reduced inverse of `a` modulo `m`, and 0 where `a` has none.
pub open spec fn inv_m(a: nat, m: nat) -> nat {
    if has_inverse(a, m) {
        choose|x: nat| is_inverse(a, x, m)
    } else {
        0
    }
}

/// Whether `m` can be a modulus of this module: odd and above 1.
pub open spec fn odd_modulus(m: nat) -> bool {
    m > 1 && m % 2 == 1
}

/// A number has at most one reduced inverse.
pub proof fn lemma_inverse_unique(a: nat, x: nat, y: nat, m: nat)
    requires
        is_inverse(a, x, m),
        is_inverse(a, y, m),
    ensures
        x == y,
{
    let mi = m as int;
    let ai = a as int;
    let xi = x as int;
    let yi = y as int;
    lemma_small_mod(x, m);
    lemma_small_mod(y, m);
    lemma_mul_mod_noop_right(xi, ai * yi, mi);
    lemma_mul_mod_noop_left(ai * xi, yi, mi);
    assert(xi * (ai * yi) == (ai * xi) * yi) by (nonlinear_arith);
    assert(xi * 1 == xi);
    assert(1 * yi == yi);
}

/// If `x` is an inverse of `a`, it is the one that `inv_m` names; if `a` has
/// an inverse, `inv_m` names one.
pub proof fn lemma_inv_m(a: nat, m: nat)
    ensures
        has_inverse(a, m) ==> is_inverse(a, inv_m(a, m), m),
        forall|x: nat| is_inverse(a, x, m) ==> inv_m(a, m) == x,
{
    assert forall|x: nat| is_inverse(a, x, m) implies inv_m(a, m) == x by {
        lemma_inverse_unique(a, x, inv_m(a, m), m);
    }
}

/// `Uint::add_mod` of `crypto-bigint`, on big-endian bytes.
///
/// The sum of the two numbers reduced modulo `m`; the call is defined where
/// the unreduced sum is below `2 m`.
#[verifier::external_body]
pub(crate) fn add_mod(a: &[u8; 32], b: &[u8; 32], m: &[u8; 32]) -> (r: [u8; 32])
    requires
        be_value(a@) + be_value(b@) < 2 * be_value(m@),
    ensures
        be_value(r@) == add_m(be_value(a@), be_value(b@), be_value(m@)),
{
    U256::from_be_slice(a).add_mod(&U256::from_be_slice(b), &U256::from_be_slice(m)).to_be_bytes()
}

/// `Uint::sub_mod` of `crypto-bigint`, on big-endian bytes.
///
/// The difference of the two numbers reduced modulo `m`; the call is defined
/// where the unreduced difference lies from `-m` up to, but not at, `m`.
#[verifier::external_body]
pub(crate) fn sub_mod(a: &[u8; 32], b: &[u8; 32], m: &[u8; 32]) -> (r: [u8; 32])
    requires
        -be_value(m@) <= be_value(a@) - be_value(b@) < be_value(m@),
    ensures
        be_value(r@) == sub_m(be_value(a@), be_value(b@), be_value(m@)),
{
    U256::from_be_slice(a).sub_mod(&U256::from_be_slice(b), &U256::from_be_slice(m)).to_be_bytes()
}

/// `DynResidue::mul` of `crypto-bigint`, on big-endian bytes.
///
/// Both numbers are taken into Montgomery form for the odd modulus `m`,
/// multiplied there and retrieved: the product reduced modulo `m`.
#[verifier::external_body]
pub(crate) fn mul_mod(a: &[u8; 32], b: &[u8; 32], m: &[u8; 32]) -> (r: [u8; 32])
    requires
        odd_modulus(be_value(m@)),
    ensures
        be_value(r@) == mul_m(be_value(a@), be_value(b@), be_value(m@)),
{
    let params = DynResidueParams::new(&U256::from_be_slice(m));
    let x = DynResidue::new(&U256::from_be_slice(a), params);
    let y = DynResidue::new(&U256::from_be_slice(b), params);
    x.mul(&y).retrieve().to_be_bytes()
}

/// `DynResidue::pow` of `crypto-bigint`, on big-endian bytes.
///
/// The number is taken into Montgomery form for the odd modulus `m`, raised
/// to the power `e` there and retrieved: the power reduced modulo `m`.
#[verifier::external_body]
pub(crate) fn pow_mod(a: &[u8; 32], e: &[u8; 32], m: &[u8; 32]) -> (r: [u8; 32])
    requires
        odd_modulus(be_value(m@)),
    ensures
        be_value(r@) == pow_m(be_value(a@), be_value(e@), be_value(m@)),
{
    let params = DynResidueParams::new(&U256::from_be_slice(m));
    let x = DynResidue::new(&U256::from_be_slice(a), params);
    x.pow(&U256::from_be_slice(e)).retrieve().to_be_bytes()
}

/// `Uint::inv_odd_mod` of `crypto-bigint`, on big-endian bytes.
///
/// For a reduced number and an odd modulus the call returns a reduced
/// inverse together with a flag that says whether an inverse exists. The
/// flag becomes the `Option`.
#[verifier::external_body]
pub(crate) fn inv_odd_mod(a: &[u8; 32], m: &[u8; 32]) -> (r: Option<[u8; 32]>)
    requires
        odd_modulus(be_value(m@)),
        be_value(a@) < be_value(m@),
    ensures
        match r {
            Some(x) => is_inverse(be_value(a@), be_value(x@), be_value(m@)),
            None => !has_inverse(be_value(a@), be_value(m@)),
        },
{
    let (inverse, exists) = U256::from_be_slice(a).inv_odd_mod(&U256::from_be_slice(m));
    if bool::from(exists) {
        Some(inverse.to_be_bytes())
    } else {
        None
    }
}

/// The inverse of `a` modulo `m`, and zero where `a` has none.
pub(crate) fn inverse_or_zero(a: &[u8; 32], m: &[u8; 32]) -> (r: [u8; 32])
    requires
        odd_modulus(be_value(m@)),
        be_value(a@) < be_value(m@),
    ensures
        be_value(r@) == inv_m(be_value(a@), be_value(m@)),
        be_value(r@) < be_value(m@),
{
    proof {
        lemma_inv_m(be_value(a@), be_value(m@));
    }
    match inv_odd_mod(a, m) {
        Some(x) => x,
        None => {
            let zero: [u8; 32] = [0u8; 32];
            proof {
                crate::arithmetic::bytes::lemma_be_value_zeros(zero@);
            }
            zero
        },
    }
}

} // verus!

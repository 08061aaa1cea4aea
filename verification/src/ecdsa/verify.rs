//! Verifying keys and the verification equation.

use crate::arithmetic::affine::{
    decompress, generator, lemma_decompress_on_curve, lincomb, on_curve, AffinePoint, Point,
};
use crate::arithmetic::bytes::{be_value, lemma_be_value_parity, read_array};
use crate::arithmetic::field::{field_modulus, FieldElement};
use crate::arithmetic::scalar::{group_order, s_inv, s_mul, Scalar};
use crate::ecdsa::Signature;
use crate::error::Error;
use crate::hash::{sha256, sha256_digest};
use crate::point_encoding::{encode_affine, is_point_encoding, EncodedPoint};
use vstd::prelude::*;

verus! {

/// The scalar that a 32-byte prehash stands for: its big-endian value
/// reduced modulo the group order.
pub open spec fn prehash_scalar(digest: Seq<u8>) -> nat {
    be_value(digest) % group_order()
}

/// The verification equation: with `u1 = z / s` and `u2 = r / s`, the point
/// `u1 G + u2 Q` is not the point at infinity and its x-coordinate, reduced
/// modulo the group order, is `r`.
pub open spec fn verifies(q: Point, z: nat, r: nat, s: nat) -> bool {
    let u1 = s_mul(z, s_inv(s));
    let u2 = s_mul(r, s_inv(s));
    match lincomb(generator(), u1, q, u2) {
        Point::Affine { x, y } => x % group_order() == r,
        Point::Identity => false,
    }
}

/// What verification returns for a signature that does or does not satisfy
/// the equation.
pub open spec fn verdict(holds: bool) -> Result<(), Error> {
    if holds {
        Ok(())
    } else {
        Err(Error::VerificationFailed)
    }
}

/// The point that an encoded point gives as a key: compressed points are
/// decompressed, uncompressed points are held to the curve equation, and the
/// point at infinity is no key. A compact point is not accepted.
pub open spec fn key_point(p: EncodedPoint) -> Result<Point, Error> {
    match p {
        EncodedPoint::Identity => Err(Error::PointNotOnCurve),
        EncodedPoint::Compact { x } => Err(Error::PointEncoding),
        EncodedPoint::Compressed { x, y_is_odd } => if be_value(x@) >= field_modulus() {
            Err(Error::PointNotOnCurve)
        } else {
            match decompress(be_value(x@), y_is_odd) {
                Some(q) => Ok(q),
                None => Err(Error::PointNotOnCurve),
            }
        },
        EncodedPoint::Uncompressed { x, y } => if be_value(x@) >= field_modulus() || be_value(y@)
            >= field_modulus() || !on_curve(be_value(x@), be_value(y@)) {
            Err(Error::PointNotOnCurve)
        } else {
            Ok(Point::Affine { x: be_value(x@), y: be_value(y@) })
        },
    }
}

/// A key taken from an encoded point is an affine point of the curve.
pub proof fn lemma_key_point_on_curve(p: EncodedPoint)
    ensures
        key_point(p) matches Ok(q) ==> q is Affine && on_curve(q.x(), q.y()),
{
    match p {
        EncodedPoint::Compressed { x, y_is_odd } => {
            lemma_decompress_on_curve(be_value(x@), y_is_odd);
        },
        _ => {},
    }
}

/// The point that a SEC1 octet string gives as a key.
pub open spec fn key_of_sec1(bytes: Seq<u8>) -> Result<Point, Error> {
    if is_point_encoding(bytes) {
        key_point(choose|p: EncodedPoint| p.encoding() == bytes)
    } else {
        Err(Error::PointEncoding)
    }
}

/// The point of the key in a result, or the error.
pub open spec fn key_result(r: Result<VerifyingKey, Error>) -> Result<Point, Error> {
    match r {
        Ok(key) => Ok(key@),
        Err(e) => Err(e),
    }
}

/// An ECDSA verifying key: a point of the group that is not the point at
/// infinity.
#[derive(Clone, Copy, Debug, PartialEq, Eq)]
pub struct VerifyingKey {
    point: AffinePoint,
}

impl View for VerifyingKey {
    type V = Point;

    closed spec fn view(&self) -> Point {
        self.point@
    }
}

impl AffinePoint {
    /// Verifies `signature` over the prehash scalar `z` with this point as
    /// the public key.
    ///
    /// Returns `Ok` exactly if the verification equation holds; a linear
    /// combination that ends in the point at infinity fails like any other
    /// mismatch.
    pub fn verify_prehashed(&self, z: Scalar, signature: &Signature) -> (res: Result<(), Error>)
        ensures
            res == verdict(verifies(self@, z@, signature.r_value(), signature.s_value())),
    {
        let r = signature.r().to_scalar();
        let s = signature.s();
        let s_inv = s.invert();
        let u1 = z.mul(&s_inv);
        let u2 = r.mul(&s_inv);
        let point = AffinePoint::lincomb(&AffinePoint::generator(), &u1, self, &u2);
        let x = Scalar::from_bytes_reduced(&point.x().to_bytes());
        if x.equals(&r) {
            Ok(())
        } else {
            Err(Error::VerificationFailed)
        }
    }
}

impl VerifyingKey {
    /// The point is well-formed and not the point at infinity.
    #[verifier::type_invariant]
    pub closed spec fn wf(self) -> bool {
        self.point.wf() && self.point@ is Affine
    }

    /// The point of a well-formed key has reduced coordinates.
    pub proof fn lemma_wf(self)
        requires
            self.wf(),
        ensures
            self@ matches Point::Affine { x, y } && x < field_modulus() && y < field_modulus(),
    {
        self.point.lemma_reduced();
    }

    /// Well-formed keys with one point are one key.
    pub proof fn lemma_injective(self, other: VerifyingKey)
        requires
            self.wf(),
            other.wf(),
            self@ == other@,
        ensures
            self == other,
    {
        self.point.lemma_injective(other.point);
    }

    /// The key with the given point, unless that is the point at infinity.
    pub fn from_affine(point: AffinePoint) -> (r: Result<VerifyingKey, Error>)
        ensures
            key_result(r) == if point@ is Identity {
                Err::<Point, Error>(Error::PointNotOnCurve)
            } else {
                Ok(point@)
            },
            r matches Ok(key) ==> key.wf(),
    {
        proof {
            use_type_invariant(point);
        }
        if point.is_identity() {
            Err(Error::PointNotOnCurve)
        } else {
            Ok(VerifyingKey { point })
        }
    }

    /// The point of the key.
    pub fn as_affine(&self) -> (r: AffinePoint)
        ensures
            r@ == self@,
            r@ is Affine,
            r.wf(),
    {
        proof {
            use_type_invariant(self);
        }
        self.point
    }

    /// Whether the two keys are the same point.
    pub fn equals(&self, other: &VerifyingKey) -> (r: bool)
        ensures
            r == (self@ == other@),
            r == (*self == *other),
    {
        self.point.equals(&other.point)
    }

    /// The key that a SEC1 octet string holds.
    ///
    /// Fails with `PointEncoding` if the bytes are no octet string of a
    /// point, and as [`VerifyingKey::from_encoded_point`] does otherwise.
    pub fn from_sec1_bytes(bytes: &[u8]) -> (r: Result<VerifyingKey, Error>)
        ensures
            key_result(r) == key_of_sec1(bytes@),
            r matches Ok(key) ==> key.wf(),
    {
        match EncodedPoint::from_bytes(bytes) {
            Ok(p) => {
                proof {
                    let chosen = choose|c: EncodedPoint| c.encoding() == bytes@;
                    p.lemma_encoding_injective(chosen);
                }
                VerifyingKey::from_encoded_point(&p)
            },
            Err(e) => Err(e),
        }
    }

    /// The key that an encoded point holds.
    ///
    /// Fails with `PointNotOnCurve` for the point at infinity, for a
    /// coordinate that is not below the field prime, for an x-coordinate
    /// without a point and for coordinates off the curve; with
    /// `PointEncoding` for a compact point.
    pub fn from_encoded_point(public_key: &EncodedPoint) -> (r: Result<VerifyingKey, Error>)
        ensures
            key_result(r) == key_point(*public_key),
            r matches Ok(key) ==> key.wf(),
    {
        match public_key {
            EncodedPoint::Identity => Err(Error::PointNotOnCurve),
            EncodedPoint::Compact { x } => Err(Error::PointEncoding),
            EncodedPoint::Compressed { x, y_is_odd } => {
                match FieldElement::from_bytes(x) {
                    Some(x) => match AffinePoint::decompress(&x, *y_is_odd) {
                        Some(point) => Ok(VerifyingKey { point }),
                        None => Err(Error::PointNotOnCurve),
                    },
                    None => Err(Error::PointNotOnCurve),
                }
            },
            EncodedPoint::Uncompressed { x, y } => {
                match (FieldElement::from_bytes(x), FieldElement::from_bytes(y)) {
                    (Some(x), Some(y)) => match AffinePoint::from_coordinates(x, y) {
                        Some(point) => Ok(VerifyingKey { point }),
                        None => Err(Error::PointNotOnCurve),
                    },
                    _ => Err(Error::PointNotOnCurve),
                }
            },
        }
    }

    /// The key as an encoded point, compressed or with both coordinates.
    pub fn to_encoded_point(&self, compress: bool) -> (r: EncodedPoint)
        ensures
            match r {
                EncodedPoint::Compressed { x, y_is_odd } => compress && be_value(x@) == self@.x()
                    && y_is_odd == (self@.y() % 2 == 1),
                EncodedPoint::Uncompressed { x, y } => !compress && be_value(x@) == self@.x()
                    && be_value(y@) == self@.y(),
                _ => false,
            },
    {
        let x = self.point.x().to_bytes();
        let y = self.point.y();
        if compress {
            EncodedPoint::Compressed { x, y_is_odd: y.is_odd() }
        } else {
            EncodedPoint::Uncompressed { x, y: y.to_bytes() }
        }
    }

    /// The compressed SEC1 octet string of the key: the tag `0x02` or `0x03`
    /// by the parity of `y`, then `x`.
    pub fn to_bytes(&self) -> (r: [u8; 33])
        ensures
            r@[0] == if self@.y() % 2 == 1 {
                3u8
            } else {
                2u8
            },
            be_value(r@.subrange(1, 33)) == self@.x(),
    {
        let x = self.point.x().to_bytes();
        let y = self.point.y().to_bytes();
        let encoded = encode_affine(&x, &y, true);
        proof {
            lemma_be_value_parity(y@);
            assert(encoded@.subrange(1, 33) =~= x@);
        }
        let r: [u8; 33] = read_array(encoded.as_slice(), 0);
        proof {
            assert(r@ =~= encoded@);
        }
        r
    }

    /// Verifies `signature` over the prehash `digest`, which must be the
    /// output of a collision-resistant hash of the message.
    pub fn verify_digest(&self, digest: &[u8; 32], signature: &Signature) -> (res: Result<
        (),
        Error,
    >)
        ensures
            res == verdict(
                verifies(
                    self@,
                    prehash_scalar(digest@),
                    signature.r_value(),
                    signature.s_value(),
                ),
            ),
    {
        let z = Scalar::from_bytes_reduced(digest);
        self.point.verify_prehashed(z, signature)
    }

    /// Verifies `signature` over the SHA-256 digest of `msg`.
    pub fn verify(&self, msg: &[u8], signature: &Signature) -> (res: Result<(), Error>)
        ensures
            res == verdict(
                verifies(
                    self@,
                    prehash_scalar(sha256_digest(msg@)),
                    signature.r_value(),
                    signature.s_value(),
                ),
            ),
    {
        let digest = sha256(msg);
        self.verify_digest(&digest, signature)
    }
}

} // verus!

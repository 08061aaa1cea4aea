//! The group of points of the curve `y^2 = x^3 - 3 x + b`, in affine
//! coordinates.

use crate::arithmetic::bytes::{be_value, lemma_be_value_32, lemma_prefix_step};
use crate::arithmetic::field::{f_add, f_inv, f_mul, f_sqrt, f_sub, field_modulus, FieldElement};
use crate::arithmetic::scalar::Scalar;
use vstd::arithmetic::div_mod::{lemma_fundamental_div_mod_converse, lemma_mod_multiples_vanish};
use vstd::prelude::*;

verus! {

/// A point of the plane over the field, or the point at infinity.
pub enum Point {
    /// The point at infinity, the identity of the group.
    Identity,
    /// The point with the given coordinates.
    Affine { x: nat, y: nat },
}

impl Point {
    /// The x-coordinate, and 0 for the point at infinity.
    pub open spec fn x(self) -> nat {
        match self {
            Point::Affine { x, y } => x,
            Point::Identity => 0,
        }
    }

    /// The y-coordinate, and 0 for the point at infinity.
    pub open spec fn y(self) -> nat {
        match self {
            Point::Affine { x, y } => y,
            Point::Identity => 0,
        }
    }
}

/// The coefficient `b` of the curve equation.
pub open spec fn curve_b() -> nat {
    0x5ac635d8aa3a93e7b3ebbd55769886bc651d06b0cc53b0f63bce3c3e27d2604bnat
}

/// The x-coordinate of the base point.
pub open spec fn generator_x() -> nat {
    0x6b17d1f2e12c4247f8bce6e563a440f277037d812deb33a0f4a13945d898c296nat
}

/// The y-coordinate of the base point.
pub open spec fn generator_y() -> nat {
    0x4fe342e2fe1a7f9b8ee7eb4a7c0f9e162bce33576b315ececbb6406837bf51f5nat
}

/// The base point `G`.
pub open spec fn generator() -> Point {
    Point::Affine { x: generator_x(), y: generator_y() }
}

/// The right-hand side `x^3 - 3 x + b` of the curve equation.
pub open spec fn curve_rhs(x: nat) -> nat {
    f_add(f_sub(f_mul(f_mul(x, x), x), f_mul(3, x)), curve_b())
}

/// Whether `(x, y)` satisfies the curve equation.
pub open spec fn on_curve(x: nat, y: nat) -> bool {
    f_mul(y, y) == curve_rhs(x)
}

/// The slope of the tangent to the curve at `(x, y)`.
pub open spec fn tangent_slope(x: nat, y: nat) -> nat {
    f_mul(f_sub(f_mul(3, f_mul(x, x)), 3), f_inv(f_add(y, y)))
}

/// The slope of the line through `(x1, y1)` and `(x2, y2)`.
pub open spec fn secant_slope(x1: nat, y1: nat, x2: nat, y2: nat) -> nat {
    f_mul(f_sub(y2, y1), f_inv(f_sub(x2, x1)))
}

/// The third point in which the line of the given slope through `(x1, y1)`
/// and a point with x-coordinate `x2` meets the curve, reflected in the
/// x-axis.
pub open spec fn chord(slope: nat, x1: nat, y1: nat, x2: nat) -> Point {
    let x3 = f_sub(f_sub(f_mul(slope, slope), x1), x2);
    let y3 = f_sub(f_mul(slope, f_sub(x1, x3)), y1);
    Point::Affine { x: x3, y: y3 }
}

/// `p + p`.
pub open spec fn ec_double(p: Point) -> Point {
    match p {
        Point::Identity => Point::Identity,
        Point::Affine { x, y } => if y == 0 {
            Point::Identity
        } else {
            chord(tangent_slope(x, y), x, y, x)
        },
    }
}

/// `p + q`.
pub open spec fn ec_add(p: Point, q: Point) -> Point {
    match (p, q) {
        (Point::Identity, _) => q,
        (_, Point::Identity) => p,
        (Point::Affine { x: x1, y: y1 }, Point::Affine { x: x2, y: y2 }) => if x1 != x2 {
            chord(secant_slope(x1, y1, x2, y2), x1, y1, x2)
        } else if y1 == y2 {
            ec_double(p)
        } else {
            Point::Identity
        },
    }
}

/// `k p`, by doubling: `k p = 2 ((k / 2) p)`, plus `p` where `k` is odd.
pub open spec fn ec_mul(k: nat, p: Point) -> Point
    decreases k,
{
    if k == 0 {
        Point::Identity
    } else {
        let half = ec_double(ec_mul(k / 2, p));
        if k % 2 == 1 {
            ec_add(half, p)
        } else {
            half
        }
    }
}

/// The linear combination `k p + l q`.
#[verifier::opaque]
pub open spec fn lincomb(p: Point, k: nat, q: Point, l: nat) -> Point {
    ec_add(ec_mul(k, p), ec_mul(l, q))
}

/// The point with x-coordinate `x` whose y-coordinate has the given parity,
/// if `x^3 - 3 x + b` has a square root.
pub open spec fn decompress(x: nat, y_is_odd: bool) -> Option<Point> {
    match f_sqrt(curve_rhs(x)) {
        Some(beta) => Some(
            Point::Affine {
                x,
                y: if (beta % 2 == 1) == y_is_odd {
                    beta
                } else {
                    f_sub(0, beta)
                },
            },
        ),
        None => None,
    }
}

/// A decompressed point has the x-coordinate asked for and satisfies the
/// curve equation.
pub proof fn lemma_decompress_on_curve(x: nat, y_is_odd: bool)
    ensures
        decompress(x, y_is_odd) matches Some(q) ==> q is Affine && q.x() == x && on_curve(
            x,
            q.y(),
        ),
{
    let p = field_modulus() as int;
    match f_sqrt(curve_rhs(x)) {
        Some(beta) => {
            if (beta % 2 == 1) != y_is_odd && beta != 0 {
                let y = f_sub(0, beta) as int;
                assert((0 - beta) % p == p - beta) by {
                    lemma_fundamental_div_mod_converse(0 - beta, p, -1, p - beta);
                }
                assert(y * y == p * (p - 2 * beta) + beta * beta) by (nonlinear_arith)
                    requires
                        y == p - beta,
                ;
                lemma_mod_multiples_vanish(p - 2 * beta, (beta * beta) as int, p);
            }
        },
        None => {},
    }
}

/// Multiplication by doubling agrees with repeated addition on the first
/// multiples: `0 p` is the identity, `1 p = p`, `2 p = p + p` and
/// `3 p = (p + p) + p`.
pub proof fn lemma_first_multiples(p: Point)
    ensures
        ec_mul(0, p) == Point::Identity,
        ec_mul(1, p) == p,
        ec_mul(2, p) == ec_add(p, p),
        ec_mul(3, p) == ec_add(ec_add(p, p), p),
{
    reveal_with_fuel(ec_mul, 3);
    assert(ec_add(p, p) == ec_double(p));
}

/// One step of multiplication by doubling.
pub proof fn lemma_mul_step(w: nat, bit: bool, p: Point)
    ensures
        ec_mul(2 * w + if bit { 1nat } else { 0nat }, p) == if bit {
            ec_add(ec_double(ec_mul(w, p)), p)
        } else {
            ec_double(ec_mul(w, p))
        },
{
    let k = 2 * w + if bit { 1nat } else { 0nat };
    if k != 0 {
        assert(k / 2 == w);
    }
}

/// A point in affine coordinates, or the point at infinity.
#[derive(Clone, Copy, Debug, PartialEq, Eq)]
pub struct AffinePoint {
    x: FieldElement,
    y: FieldElement,
    infinity: bool,
}

impl View for AffinePoint {
    type V = Point;

    closed spec fn view(&self) -> Point {
        if self.infinity {
            Point::Identity
        } else {
            Point::Affine { x: self.x@, y: self.y@ }
        }
    }
}

/// Whether `d` is a power of two from 1 to 256.
pub open spec fn is_bit_divisor(d: u16) -> bool {
    d == 1 || d == 2 || d == 4 || d == 8 || d == 16 || d == 32 || d == 64 || d == 128 || d == 256
}

/// The number that the bytes before `b` and the bits of `b` above the
/// divisor `d` denote together.
pub open spec fn bits_above(prefix: nat, b: u8, d: u16) -> nat {
    (prefix * 256 + b as nat) / (d as nat)
}

/// Taking in one more bit of `b` doubles the number and adds the bit.
pub proof fn lemma_bits_above_step(prefix: nat, b: u8, d: u16)
    requires
        is_bit_divisor(d),
        d > 1,
    ensures
        is_bit_divisor((d / 2) as u16),
        bits_above(prefix, b, (d / 2) as u16) == 2 * bits_above(prefix, b, d) + if (b as nat / ((d
            / 2) as nat)) % 2 == 1 {
            1nat
        } else {
            0nat
        },
        bits_above(prefix, b, 256) == prefix,
        bits_above(prefix, b, 1) == prefix * 256 + b as nat,
{
    let p = prefix as int;
    let c = b as int;
    let v = p * 256 + c;
    assert(v / 1 == v);
    assert(v / 256 == p);
    if d == 2 {
        assert(v / 1 == p * 256 + c / 1);
        assert(v / 2 == p * 128 + c / 2);
        assert(c / 1 == 2 * (c / 2) + (c / 1) % 2);
    } else if d == 4 {
        assert(v / 2 == p * 128 + c / 2);
        assert(v / 4 == p * 64 + c / 4);
        assert(c / 2 == 2 * (c / 4) + (c / 2) % 2);
    } else if d == 8 {
        assert(v / 4 == p * 64 + c / 4);
        assert(v / 8 == p * 32 + c / 8);
        assert(c / 4 == 2 * (c / 8) + (c / 4) % 2);
    } else if d == 16 {
        assert(v / 8 == p * 32 + c / 8);
        assert(v / 16 == p * 16 + c / 16);
        assert(c / 8 == 2 * (c / 16) + (c / 8) % 2);
    } else if d == 32 {
        assert(v / 16 == p * 16 + c / 16);
        assert(v / 32 == p * 8 + c / 32);
        assert(c / 16 == 2 * (c / 32) + (c / 16) % 2);
    } else if d == 64 {
        assert(v / 32 == p * 8 + c / 32);
        assert(v / 64 == p * 4 + c / 64);
        assert(c / 32 == 2 * (c / 64) + (c / 32) % 2);
    } else if d == 128 {
        assert(v / 64 == p * 4 + c / 64);
        assert(v / 128 == p * 2 + c / 128);
        assert(c / 64 == 2 * (c / 128) + (c / 64) % 2);
    } else {
        assert(v / 128 == p * 2 + c / 128);
        assert(v / 256 == p * 1 + c / 256);
        assert(c / 128 == 2 * (c / 256) + (c / 128) % 2);
    }
}

impl AffinePoint {
    /// The coordinates are reduced, and the point at infinity has one
    /// representation.
    #[verifier::type_invariant]
    pub closed spec fn wf(self) -> bool {
        &&& self.x.wf()
        &&& self.y.wf()
        &&& self.infinity ==> self.x@ == 0 && self.y@ == 0
    }

    /// The coordinates of a well-formed point are below the field prime.
    pub proof fn lemma_reduced(self)
        requires
            self.wf(),
        ensures
            self@ matches Point::Affine { x, y } ==> x < field_modulus() && y < field_modulus(),
    {
        self.x.lemma_reduced();
        self.y.lemma_reduced();
    }

    /// Well-formed points with one view are one point.
    pub proof fn lemma_injective(self, other: AffinePoint)
        requires
            self.wf(),
            other.wf(),
            self@ == other@,
        ensures
            self == other,
    {
        self.x.lemma_injective(other.x);
        self.y.lemma_injective(other.y);
    }

    /// The point at infinity.
    pub fn identity() -> (r: AffinePoint)
        ensures
            r@ == Point::Identity,
            r.wf(),
    {
        AffinePoint { x: FieldElement::zero(), y: FieldElement::zero(), infinity: true }
    }

    /// The base point.
    pub fn generator() -> (r: AffinePoint)
        ensures
            r@ == generator(),
            r.wf(),
    {
        let gx: [u8; 32] = [
            0x6b, 0x17, 0xd1, 0xf2, 0xe1, 0x2c, 0x42, 0x47,
            0xf8, 0xbc, 0xe6, 0xe5, 0x63, 0xa4, 0x40, 0xf2,
            0x77, 0x03, 0x7d, 0x81, 0x2d, 0xeb, 0x33, 0xa0,
            0xf4, 0xa1, 0x39, 0x45, 0xd8, 0x98, 0xc2, 0x96,
        ];
        let gy: [u8; 32] = [
            0x4f, 0xe3, 0x42, 0xe2, 0xfe, 0x1a, 0x7f, 0x9b,
            0x8e, 0xe7, 0xeb, 0x4a, 0x7c, 0x0f, 0x9e, 0x16,
            0x2b, 0xce, 0x33, 0x57, 0x6b, 0x31, 0x5e, 0xce,
            0xcb, 0xb6, 0x40, 0x68, 0x37, 0xbf, 0x51, 0xf5,
        ];
        proof {
            lemma_be_value_32(gx@);
            lemma_be_value_32(gy@);
        }
        AffinePoint {
            x: FieldElement::from_reduced_bytes(gx),
            y: FieldElement::from_reduced_bytes(gy),
            infinity: false,
        }
    }

    /// The point `(x, y)`, if it satisfies the curve equation.
    pub fn from_coordinates(x: FieldElement, y: FieldElement) -> (r: Option<AffinePoint>)
        ensures
            r is Some <==> on_curve(x@, y@),
            r matches Some(p) ==> p@ == (Point::Affine { x: x@, y: y@ }) && p.wf(),
    {
        proof {
            use_type_invariant(x);
            use_type_invariant(y);
        }
        let lhs = y.mul(&y);
        let rhs = Self::rhs(&x);
        if lhs.equals(&rhs) {
            Some(AffinePoint { x, y, infinity: false })
        } else {
            None
        }
    }

    /// The point with the given x-coordinate and parity of `y`, if there is
    /// one.
    pub fn decompress(x: &FieldElement, y_is_odd: bool) -> (r: Option<AffinePoint>)
        ensures
            r is Some <==> decompress(x@, y_is_odd) is Some,
            r matches Some(p) ==> decompress(x@, y_is_odd) == Some(p@) && p.wf(),
    {
        proof {
            use_type_invariant(x);
        }
        let rhs = Self::rhs(x);
        match rhs.sqrt() {
            Some(beta) => {
                let y = if beta.is_odd() == y_is_odd {
                    beta
                } else {
                    FieldElement::zero().sub(&beta)
                };
                Some(AffinePoint { x: *x, y, infinity: false })
            },
            None => None,
        }
    }

    fn rhs(x: &FieldElement) -> (r: FieldElement)
        ensures
            r@ == curve_rhs(x@),
            r.wf(),
    {
        let b: [u8; 32] = [
            0x5a, 0xc6, 0x35, 0xd8, 0xaa, 0x3a, 0x93, 0xe7,
            0xb3, 0xeb, 0xbd, 0x55, 0x76, 0x98, 0x86, 0xbc,
            0x65, 0x1d, 0x06, 0xb0, 0xcc, 0x53, 0xb0, 0xf6,
            0x3b, 0xce, 0x3c, 0x3e, 0x27, 0xd2, 0x60, 0x4b,
        ];
        proof {
            lemma_be_value_32(b@);
        }
        let b = FieldElement::from_reduced_bytes(b);
        let three = FieldElement::from_u8(3);
        x.mul(x).mul(x).sub(&three.mul(x)).add(&b)
    }

    /// Whether this is the point at infinity.
    pub fn is_identity(&self) -> (r: bool)
        ensures
            r == (self@ is Identity),
    {
        self.infinity
    }

    /// The x-coordinate, and zero for the point at infinity.
    pub fn x(&self) -> (r: FieldElement)
        ensures
            r@ == self@.x(),
            r.wf(),
    {
        proof {
            use_type_invariant(self);
        }
        self.x
    }

    /// The y-coordinate, and zero for the point at infinity.
    pub fn y(&self) -> (r: FieldElement)
        ensures
            r@ == self@.y(),
            r.wf(),
    {
        proof {
            use_type_invariant(self);
        }
        self.y
    }

    /// Whether the two points are equal.
    pub fn equals(&self, other: &AffinePoint) -> (r: bool)
        ensures
            r == (self@ == other@),
            r == (*self == *other),
    {
        proof {
            use_type_invariant(self);
            use_type_invariant(other);
            if self@ == other@ {
                self.lemma_injective(*other);
            }
        }
        self.infinity == other.infinity && self.x.equals(&other.x) && self.y.equals(&other.y)
    }

    fn chord(slope: &FieldElement, x1: &FieldElement, y1: &FieldElement, x2: &FieldElement) -> (r:
        AffinePoint)
        ensures
            r@ == chord(slope@, x1@, y1@, x2@),
            r.wf(),
    {
        let x3 = slope.mul(slope).sub(x1).sub(x2);
        let y3 = slope.mul(&x1.sub(&x3)).sub(y1);
        AffinePoint { x: x3, y: y3, infinity: false }
    }

    /// `self + self`.
    pub fn double(&self) -> (r: AffinePoint)
        ensures
            r@ == ec_double(self@),
            r.wf(),
    {
        if self.infinity || self.y.is_zero() {
            AffinePoint::identity()
        } else {
            let three = FieldElement::from_u8(3);
            let slope = three.mul(&self.x.mul(&self.x)).sub(&three).mul(
                &self.y.add(&self.y).invert(),
            );
            Self::chord(&slope, &self.x, &self.y, &self.x)
        }
    }

    /// `self + rhs`.
    pub fn add(&self, rhs: &AffinePoint) -> (r: AffinePoint)
        ensures
            r@ == ec_add(self@, rhs@),
            r.wf(),
    {
        proof {
            use_type_invariant(self);
            use_type_invariant(rhs);
        }
        if self.infinity {
            *rhs
        } else if rhs.infinity {
            *self
        } else if !self.x.equals(&rhs.x) {
            let slope = rhs.y.sub(&self.y).mul(&rhs.x.sub(&self.x).invert());
            Self::chord(&slope, &self.x, &self.y, &rhs.x)
        } else if self.y.equals(&rhs.y) {
            self.double()
        } else {
            AffinePoint::identity()
        }
    }

    /// `k self`.
    pub fn mul(&self, k: &Scalar) -> (r: AffinePoint)
        ensures
            r@ == ec_mul(k@, self@),
            r.wf(),
    {
        let kb = k.to_bytes();
        let mut acc = AffinePoint::identity();
        let mut i: usize = 0;
        while i < 32
            invariant
                i <= 32,
                acc@ == ec_mul(be_value(kb@.subrange(0, i as int)), self@),
                acc.wf(),
            decreases 32 - i,
        {
            let b: u8 = kb[i];
            let ghost prefix = be_value(kb@.subrange(0, i as int));
            let ghost mut w: nat = prefix;
            let mut d: u16 = 256;
            while d > 1
                invariant
                    is_bit_divisor(d),
                    w == bits_above(prefix, b, d),
                    acc@ == ec_mul(w, self@),
                    acc.wf(),
                decreases d,
            {
                proof {
                    lemma_bits_above_step(prefix, b, d);
                }
                d = d / 2;
                let bit: bool = (b as u16 / d) % 2 == 1;
                proof {
                    lemma_mul_step(w, bit, self@);
                    w = 2 * w + if bit { 1nat } else { 0nat };
                }
                acc = acc.double();
                if bit {
                    acc = acc.add(self);
                }
            }
            proof {
                lemma_prefix_step(kb@, i as int);
            }
            i = i + 1;
        }
        proof {
            assert(kb@.subrange(0, 32) =~= kb@);
        }
        acc
    }

    /// `k p + l q`.
    pub fn lincomb(p: &AffinePoint, k: &Scalar, q: &AffinePoint, l: &Scalar) -> (r: AffinePoint)
        ensures
            r@ == lincomb(p@, k@, q@, l@),
            r.wf(),
    {
        proof {
            reveal(lincomb);
        }
        p.mul(k).add(&q.mul(l))
    }
}

} // verus!

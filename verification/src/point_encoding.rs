//! SEC1 octet strings of curve points.
//!
//! An octet string starts with a tag: `0x00` alone for the point at
//! infinity, `0x02` or `0x03` before the x-coordinate of a compressed point,
//! `0x04` before both coordinates, `0x05` before the x-coordinate of a
//! compact point. The strings are taken apart and put together by the
//! `sec1` crate.

use crate::error::Error;
use sec1::consts::U32;
use sec1::point::Coordinates;
use vstd::prelude::*;

verus! {

/// What a SEC1 octet string of this curve holds.
#[derive(Clone, Copy, Debug, PartialEq, Eq)]
pub enum EncodedPoint {
    /// The point at infinity.
    Identity,
    /// An x-coordinate alone.
    Compact { x: [u8; 32] },
    /// An x-coordinate and the parity of y.
    Compressed { x: [u8; 32], y_is_odd: bool },
    /// Both coordinates.
    Uncompressed { x: [u8; 32], y: [u8; 32] },
}

/// Whether `bytes` is a SEC1 octet string for a curve with 32-byte
/// coordinates: a known tag, and the length that belongs to it.
pub open spec fn is_point_encoding(bytes: Seq<u8>) -> bool {
    bytes.len() > 0 && {
        let tag = bytes[0];
        ||| tag == 0 && bytes.len() == 1
        ||| (tag == 2 || tag == 3 || tag == 5) && bytes.len() == 33
        ||| tag == 4 && bytes.len() == 65
    }
}

/// The tag of a compressed point whose y-coordinate ends in `last`.
pub open spec fn compressed_tag(last: u8) -> u8 {
    if last % 2 == 1 {
        3
    } else {
        2
    }
}

/// The octet string of the point `(x, y)`, compressed or not.
pub open spec fn affine_encoding(x: Seq<u8>, y: Seq<u8>, compress: bool) -> Seq<u8> {
    if compress {
        seq![compressed_tag(y.last())] + x
    } else {
        seq![4u8] + x + y
    }
}

impl EncodedPoint {
    /// The octet string that holds this.
    pub open spec fn encoding(self) -> Seq<u8> {
        match self {
            EncodedPoint::Identity => seq![0u8],
            EncodedPoint::Compact { x } => seq![5u8] + x@,
            EncodedPoint::Compressed { x, y_is_odd } => seq![
                if y_is_odd {
                    3u8
                } else {
                    2u8
                },
            ] + x@,
            EncodedPoint::Uncompressed { x, y } => seq![4u8] + x@ + y@,
        }
    }

    /// Two values with one octet string are one value.
    pub proof fn lemma_encoding_injective(self, other: EncodedPoint)
        requires
            self.encoding() == other.encoding(),
        ensures
            self == other,
    {
        let a = self.encoding();
        let b = other.encoding();
        assert(a[0] == b[0]);
        assert(a.len() == b.len());
        match (self, other) {
            (EncodedPoint::Compact { x: x1 }, EncodedPoint::Compact { x: x2 }) => {
                assert(x1@ =~= a.subrange(1, 33));
                assert(x2@ =~= b.subrange(1, 33));
                assert(x1 =~= x2);
            },
            (
                EncodedPoint::Compressed { x: x1, y_is_odd: o1 },
                EncodedPoint::Compressed { x: x2, y_is_odd: o2 },
            ) => {
                assert(x1@ =~= a.subrange(1, 33));
                assert(x2@ =~= b.subrange(1, 33));
                assert(x1 =~= x2);
            },
            (
                EncodedPoint::Uncompressed { x: x1, y: y1 },
                EncodedPoint::Uncompressed { x: x2, y: y2 },
            ) => {
                assert(x1@ =~= a.subrange(1, 33));
                assert(x2@ =~= b.subrange(1, 33));
                assert(y1@ =~= a.subrange(33, 65));
                assert(y2@ =~= b.subrange(33, 65));
                assert(x1 =~= x2);
                assert(y1 =~= y2);
            },
            _ => {},
        }
    }

    /// Takes an octet string apart.
    ///
    /// Fails with `PointEncoding` unless the string has a known tag and the
    /// length that belongs to it. The coordinates are not examined.
    pub fn from_bytes(bytes: &[u8]) -> (r: Result<EncodedPoint, Error>)
        ensures
            r is Ok <==> is_point_encoding(bytes@),
            r matches Ok(p) ==> p.encoding() == bytes@,
            r matches Err(e) ==> e == Error::PointEncoding,
    {
        match decode(bytes) {
            Some(p) => Ok(p),
            None => Err(Error::PointEncoding),
        }
    }
}

/// `EncodedPoint::from_bytes` and `EncodedPoint::coordinates` of the `sec1`
/// crate, for 32-byte coordinates.
///
/// The first accepts exactly the strings with a known tag and the length that
/// belongs to it; the second hands out what follows the tag. The result
/// holds the same coordinates, variant for variant.
#[verifier::external_body]
fn decode(bytes: &[u8]) -> (r: Option<EncodedPoint>)
    ensures
        r is Some <==> is_point_encoding(bytes@),
        r matches Some(p) ==> p.encoding() == bytes@,
{
    match sec1::EncodedPoint::<U32>::from_bytes(bytes) {
        Ok(point) => Some(
            match point.coordinates() {
                Coordinates::Identity => EncodedPoint::Identity,
                Coordinates::Compact { x } => EncodedPoint::Compact { x: (*x).into() },
                Coordinates::Compressed { x, y_is_odd } => EncodedPoint::Compressed { x: (*x).into(), y_is_odd },
                Coordinates::Uncompressed { x, y } => EncodedPoint::Uncompressed { x: (*x).into(), y: (*y).into() },
            },
        ),
        Err(_) => None,
    }
}

/// `EncodedPoint::from_affine_coordinates` of the `sec1` crate, for 32-byte
/// coordinates, and the bytes of what it returns.
///
/// With compression the string is the tag `0x02` or `0x03`, by the parity of
/// the last byte of `y`, and then `x`; without, the tag `0x04`, `x` and `y`.
#[verifier::external_body]
pub(crate) fn encode_affine(x: &[u8; 32], y: &[u8; 32], compress: bool) -> (r: Vec<u8>)
    ensures
        r@ == affine_encoding(x@, y@, compress),
{
    sec1::EncodedPoint::<U32>::from_affine_coordinates(x.into(), y.into(), compress).as_bytes().to_vec()
}

} // verus!

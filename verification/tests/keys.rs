use p256::ecdsa::{Error, VerifyingKey};
use p256::point_encoding::EncodedPoint;

fn hex(s: &str) -> Vec<u8> {
    let digits: Vec<u8> = s
        .bytes()
        .map(|c| match c {
            b'0'..=b'9' => c - b'0',
            b'a'..=b'f' => c - b'a' + 10,
            _ => panic!("not a hex digit"),
        })
        .collect();
    digits.chunks(2).map(|pair| pair[0] * 16 + pair[1]).collect()
}

fn hex32(s: &str) -> [u8; 32] {
    let mut out = [0u8; 32];
    out.copy_from_slice(&hex(s));
    out
}

const GX: &str = "6b17d1f2e12c4247f8bce6e563a440f277037d812deb33a0f4a13945d898c296";
const GY: &str = "4fe342e2fe1a7f9b8ee7eb4a7c0f9e162bce33576b315ececbb6406837bf51f5";
const NEG_GY: &str = "b01cbd1c01e58065711814b583f061e9d431cca994cea1313449bf97c840ae0a";
const P: &str = "ffffffff00000001000000000000000000000000ffffffffffffffffffffffff";
const KX: &str = "c156afee1ce52ef83a0dd168c1144eb20008697e6664fa132ba23c128cce8055";
const KY: &str = "2f9312dddc598e5d5b1be0b127e11c53252cc79c6a3c9a05c73d5e24335f718c";

fn octets(tag: &str, parts: &[&str]) -> Vec<u8> {
    let mut bytes = hex(tag);
    for part in parts {
        bytes.extend(hex(part));
    }
    bytes
}

#[test]
fn encoded_point_variants() {
    assert_eq!(EncodedPoint::from_bytes(&[0]), Ok(EncodedPoint::Identity));
    assert_eq!(
        EncodedPoint::from_bytes(&octets("02", &[GX])),
        Ok(EncodedPoint::Compressed { x: hex32(GX), y_is_odd: false })
    );
    assert_eq!(
        EncodedPoint::from_bytes(&octets("03", &[GX])),
        Ok(EncodedPoint::Compressed { x: hex32(GX), y_is_odd: true })
    );
    assert_eq!(
        EncodedPoint::from_bytes(&octets("04", &[GX, GY])),
        Ok(EncodedPoint::Uncompressed { x: hex32(GX), y: hex32(GY) })
    );
    assert_eq!(
        EncodedPoint::from_bytes(&octets("05", &[GX])),
        Ok(EncodedPoint::Compact { x: hex32(GX) })
    );
    // The coordinates are not examined.
    assert_eq!(
        EncodedPoint::from_bytes(&octets("04", &[P, P])),
        Ok(EncodedPoint::Uncompressed { x: hex32(P), y: hex32(P) })
    );
}

#[test]
fn encoded_point_rejects_unknown_tags_and_wrong_lengths() {
    assert_eq!(EncodedPoint::from_bytes(&[]), Err(Error::PointEncoding));
    assert_eq!(EncodedPoint::from_bytes(&[0, 0]), Err(Error::PointEncoding));
    assert_eq!(EncodedPoint::from_bytes(&[1]), Err(Error::PointEncoding));
    assert_eq!(EncodedPoint::from_bytes(&octets("01", &[GX])), Err(Error::PointEncoding));
    assert_eq!(EncodedPoint::from_bytes(&octets("06", &[GX, GY])), Err(Error::PointEncoding));
    assert_eq!(EncodedPoint::from_bytes(&octets("02", &[GX, GY])), Err(Error::PointEncoding));
    assert_eq!(EncodedPoint::from_bytes(&octets("04", &[GX])), Err(Error::PointEncoding));
    assert_eq!(EncodedPoint::from_bytes(&octets("02", &[GX])[..32]), Err(Error::PointEncoding));
    assert_eq!(EncodedPoint::from_bytes(&octets("05", &[GX, GY])), Err(Error::PointEncoding));
}

#[test]
fn key_from_compressed_and_uncompressed_octets() {
    let compressed = VerifyingKey::from_sec1_bytes(&octets("02", &[KX])).unwrap();
    let uncompressed = VerifyingKey::from_sec1_bytes(&octets("04", &[KX, KY])).unwrap();
    assert_eq!(compressed, uncompressed);
    assert!(compressed.equals(&uncompressed));
    let mirrored = VerifyingKey::from_sec1_bytes(&octets("03", &[KX])).unwrap();
    assert_ne!(mirrored, compressed);
    assert!(!mirrored.equals(&compressed));
    assert_eq!(&compressed.as_affine().x().to_bytes()[..], &hex(KX)[..]);
    assert_eq!(&compressed.as_affine().y().to_bytes()[..], &hex(KY)[..]);
}

#[test]
fn key_to_octets() {
    let key = VerifyingKey::from_sec1_bytes(&octets("04", &[KX, KY])).unwrap();
    assert_eq!(&key.to_bytes()[..], &octets("02", &[KX])[..]);
    assert_eq!(
        key.to_encoded_point(true),
        EncodedPoint::Compressed { x: hex32(KX), y_is_odd: false }
    );
    assert_eq!(
        key.to_encoded_point(false),
        EncodedPoint::Uncompressed { x: hex32(KX), y: hex32(KY) }
    );
    let g = VerifyingKey::from_sec1_bytes(&octets("04", &[GX, GY])).unwrap();
    assert_eq!(&g.to_bytes()[..], &octets("03", &[GX])[..]);
    assert_eq!(VerifyingKey::from_sec1_bytes(&g.to_bytes()), Ok(g));
    assert_eq!(VerifyingKey::from_encoded_point(&g.to_encoded_point(true)), Ok(g));
    assert_eq!(VerifyingKey::from_encoded_point(&g.to_encoded_point(false)), Ok(g));
    let mirrored = VerifyingKey::from_sec1_bytes(&octets("04", &[GX, NEG_GY])).unwrap();
    assert_eq!(&mirrored.to_bytes()[..], &octets("02", &[GX])[..]);
}

#[test]
fn key_rejects_what_is_no_point() {
    assert_eq!(VerifyingKey::from_sec1_bytes(&[]), Err(Error::PointEncoding));
    assert_eq!(VerifyingKey::from_sec1_bytes(&octets("07", &[KX])), Err(Error::PointEncoding));
    assert_eq!(VerifyingKey::from_sec1_bytes(&octets("02", &[KX, KY])), Err(Error::PointEncoding));
    assert_eq!(VerifyingKey::from_sec1_bytes(&octets("05", &[KX])), Err(Error::PointEncoding));
    assert_eq!(
        VerifyingKey::from_encoded_point(&EncodedPoint::Compact { x: hex32(KX) }),
        Err(Error::PointEncoding)
    );
    assert_eq!(VerifyingKey::from_sec1_bytes(&[0]), Err(Error::PointNotOnCurve));
    assert_eq!(
        VerifyingKey::from_encoded_point(&EncodedPoint::Identity),
        Err(Error::PointNotOnCurve)
    );
    // An x-coordinate that is not below the field prime.
    assert_eq!(VerifyingKey::from_sec1_bytes(&octets("02", &[P])), Err(Error::PointNotOnCurve));
    assert_eq!(
        VerifyingKey::from_sec1_bytes(&octets("04", &[P, GY])),
        Err(Error::PointNotOnCurve)
    );
    assert_eq!(
        VerifyingKey::from_sec1_bytes(&octets("04", &[GX, P])),
        Err(Error::PointNotOnCurve)
    );
    // No point of the curve has the x-coordinate 1.
    let one = "0000000000000000000000000000000000000000000000000000000000000001";
    assert_eq!(VerifyingKey::from_sec1_bytes(&octets("03", &[one])), Err(Error::PointNotOnCurve));
    // Coordinates off the curve.
    assert_eq!(
        VerifyingKey::from_sec1_bytes(&octets("04", &[GX, KY])),
        Err(Error::PointNotOnCurve)
    );
}

#[test]
fn key_from_affine_rejects_the_point_at_infinity() {
    let identity = p256::arithmetic::affine::AffinePoint::identity();
    assert_eq!(VerifyingKey::from_affine(identity), Err(Error::PointNotOnCurve));
    let g = p256::arithmetic::affine::AffinePoint::generator();
    let key = VerifyingKey::from_affine(g).unwrap();
    assert_eq!(key.as_affine(), g);
    assert_eq!(&key.to_bytes()[..], &octets("03", &[GX])[..]);
}

use p256::ecdsa::recoverable;
use p256::ecdsa::{Error, Signature};

fn hex(s: &str) -> Vec<u8> {
    let digits: Vec<u8> = s
        .bytes()
        .map(|c| match c {
            b'0'..=b'9' => c - b'0',
            b'a'..=b'f' => c - b'a' + 10,
            b'A'..=b'F' => c - b'A' + 10,
            _ => panic!("not a hex digit"),
        })
        .collect();
    digits.chunks(2).map(|pair| pair[0] * 16 + pair[1]).collect()
}

const R: &str = "efd48b2aacb6a8fd1140dd9cd45e81d69d2c877b56aaf991c34d0ea84eaf3716";
const S: &str = "f7cb1c942d657c41d436c7a1b6e29f65f3e900dbb9aff4064dc4ab2f843acda8";
const NEG_S: &str = "0834e36ad29a83bf2bc9385e491d6099c8fdf9d1ed67aa7ea5f51f93782857a9";
const ORDER: &str = "ffffffff00000000ffffffffffffffffbce6faada7179e84f3b9cac2fc632551";
const ORDER_MINUS_ONE: &str = "ffffffff00000000ffffffffffffffffbce6faada7179e84f3b9cac2fc632550";
const HALF_ORDER: &str = "7fffffff800000007fffffffffffffffde737d56d38bcf4279dce5617e3192a8";
const ZERO: &str = "0000000000000000000000000000000000000000000000000000000000000000";
const ONE: &str = "0000000000000000000000000000000000000000000000000000000000000001";

fn sig_bytes(r: &str, s: &str) -> Vec<u8> {
    let mut bytes = hex(r);
    bytes.extend(hex(s));
    bytes
}

#[test]
fn signature_round_trip() {
    let bytes = sig_bytes(R, S);
    let sig = Signature::from_bytes(&bytes).unwrap();
    assert_eq!(sig.as_ref(), &bytes[..]);
    assert_eq!(&sig.to_bytes()[..], &bytes[..]);
    assert_eq!(Signature::from_bytes(sig.as_ref()), Ok(sig));
    assert_eq!(Signature::try_from(&bytes[..]), Ok(sig));
}

#[test]
fn signature_components() {
    let sig = Signature::from_bytes(&sig_bytes(R, S)).unwrap();
    assert_eq!(&sig.r().to_bytes()[..], &hex(R)[..]);
    assert_eq!(&sig.s().to_bytes()[..], &hex(S)[..]);
    let again = Signature::from_scalars(&sig.r(), &sig.s());
    assert_eq!(again, sig);
}

#[test]
fn signature_rejects_wrong_length() {
    let bytes = sig_bytes(R, S);
    assert_eq!(Signature::from_bytes(&bytes[..63]), Err(Error::InvalidLength));
    let mut longer = bytes.clone();
    longer.push(0);
    assert_eq!(Signature::from_bytes(&longer), Err(Error::InvalidLength));
    assert_eq!(Signature::from_bytes(&[]), Err(Error::InvalidLength));
}

#[test]
fn signature_rejects_zero_components() {
    assert_eq!(Signature::from_bytes(&sig_bytes(ZERO, S)), Err(Error::InvalidScalar));
    assert_eq!(Signature::from_bytes(&sig_bytes(R, ZERO)), Err(Error::InvalidScalar));
    assert_eq!(Signature::from_bytes(&[0u8; 64]), Err(Error::InvalidScalar));
}

#[test]
fn signature_rejects_unreduced_components() {
    assert_eq!(Signature::from_bytes(&sig_bytes(ORDER, S)), Err(Error::InvalidScalar));
    assert_eq!(Signature::from_bytes(&sig_bytes(R, ORDER)), Err(Error::InvalidScalar));
    assert_eq!(Signature::from_bytes(&[0xffu8; 64]), Err(Error::InvalidScalar));
    assert!(Signature::from_bytes(&sig_bytes(ORDER_MINUS_ONE, ONE)).is_ok());
    assert!(Signature::from_bytes(&sig_bytes(ONE, ORDER_MINUS_ONE)).is_ok());
}

#[test]
fn normalize_s_negates_high_s_only() {
    let high = Signature::from_bytes(&sig_bytes(R, S)).unwrap();
    let low = high.normalize_s().unwrap();
    assert_eq!(low.as_ref(), &sig_bytes(R, NEG_S)[..]);
    assert_eq!(low.normalize_s(), None);
    let at_half = Signature::from_bytes(&sig_bytes(R, HALF_ORDER)).unwrap();
    assert_eq!(at_half.normalize_s(), None);
    let top = Signature::from_bytes(&sig_bytes(R, ORDER_MINUS_ONE)).unwrap();
    assert_eq!(top.normalize_s().unwrap().as_ref(), &sig_bytes(R, ONE)[..]);
}

#[test]
fn recoverable_round_trip() {
    for v in 0u8..=1 {
        let mut bytes = sig_bytes(R, S);
        bytes.push(v);
        let sig = recoverable::Signature::from_bytes(&bytes).unwrap();
        assert_eq!(sig.as_ref(), &bytes[..]);
        assert_eq!(sig.recovery_id().to_byte(), v);
        assert_eq!(u8::from(sig.recovery_id()), v);
        assert_eq!(recoverable::Signature::try_from(sig.as_ref()), Ok(sig));
        assert_eq!(&sig.r().to_bytes()[..], &hex(R)[..]);
        assert_eq!(&sig.s().to_bytes()[..], &hex(S)[..]);
    }
}

#[test]
fn recoverable_rejects_wrong_length() {
    let mut bytes = sig_bytes(R, S);
    assert_eq!(recoverable::Signature::from_bytes(&bytes), Err(Error::InvalidLength));
    bytes.push(1);
    bytes.push(0);
    assert_eq!(recoverable::Signature::from_bytes(&bytes), Err(Error::InvalidLength));
    assert_eq!(recoverable::SIZE, 65);
}

#[test]
fn recoverable_rejects_invalid_parts() {
    let mut zero_r = sig_bytes(ZERO, S);
    zero_r.push(0);
    assert_eq!(recoverable::Signature::from_bytes(&zero_r), Err(Error::InvalidScalar));
    let mut big_s = sig_bytes(R, ORDER);
    big_s.push(5);
    assert_eq!(recoverable::Signature::from_bytes(&big_s), Err(Error::InvalidScalar));
    for v in [2u8, 3, 4, 255] {
        let mut bytes = sig_bytes(R, S);
        bytes.push(v);
        assert_eq!(
            recoverable::Signature::from_bytes(&bytes),
            Err(Error::UnsupportedRecoveryId)
        );
    }
}

#[test]
fn recoverable_new_appends_the_id() {
    let plain = Signature::from_bytes(&sig_bytes(R, S)).unwrap();
    let id = recoverable::Id::new(1).unwrap();
    let sig = recoverable::Signature::new(&plain, id).unwrap();
    let mut expected = sig_bytes(R, S);
    expected.push(1);
    assert_eq!(sig.as_ref(), &expected[..]);
    assert_eq!(sig.recovery_id(), id);
    assert_eq!(sig.to_signature(), plain);
    assert_eq!(Signature::from(sig), plain);
    let converted: Signature = sig.into();
    assert_eq!(converted.as_ref(), &sig.as_ref()[..64]);
}

#[test]
fn id_accepts_zero_and_one_only() {
    assert_eq!(recoverable::Id::new(0).unwrap().to_byte(), 0);
    assert_eq!(recoverable::Id::new(1).unwrap().to_byte(), 1);
    assert_eq!(recoverable::Id::new(2), Err(Error::UnsupportedRecoveryId));
    assert_eq!(recoverable::Id::new(3), Err(Error::UnsupportedRecoveryId));
    assert_eq!(recoverable::Id::new(255), Err(Error::UnsupportedRecoveryId));
    assert_eq!(recoverable::Id::try_from(1), recoverable::Id::new(1));
    assert_eq!(recoverable::Id::try_from(2), Err(Error::UnsupportedRecoveryId));
    assert!(!recoverable::Id::new(0).unwrap().is_y_odd());
    assert!(recoverable::Id::new(1).unwrap().is_y_odd());
}

#[test]
fn id_from_flags() {
    assert_eq!(recoverable::Id::from_flags(false, false), recoverable::Id::new(0));
    assert_eq!(recoverable::Id::from_flags(true, false), recoverable::Id::new(1));
    assert_eq!(recoverable::Id::from_flags(false, true), Err(Error::UnsupportedRecoveryId));
    assert_eq!(recoverable::Id::from_flags(true, true), Err(Error::UnsupportedRecoveryId));
}

#[test]
fn id_converts_from_and_to_the_general_identifier() {
    for byte in 0u8..=3 {
        let general = ecdsa::RecoveryId::from_byte(byte).unwrap();
        let id = recoverable::Id::try_from_recovery_id(general);
        if byte <= 1 {
            assert_eq!(id, recoverable::Id::new(byte));
            assert_eq!(id.unwrap().to_recovery_id(), general);
        } else {
            assert_eq!(id, Err(Error::UnsupportedRecoveryId));
        }
    }
    let odd = recoverable::Id::new(1).unwrap().to_recovery_id();
    assert!(odd.is_y_odd());
    assert!(!odd.is_x_reduced());
    let even = recoverable::Id::new(0).unwrap().to_recovery_id();
    assert!(!even.is_y_odd());
    assert!(!even.is_x_reduced());
}

#[test]
fn error_descriptions_differ() {
    let all = [
        Error::InvalidLength,
        Error::InvalidScalar,
        Error::UnsupportedRecoveryId,
        Error::PointNotOnCurve,
        Error::PointEncoding,
        Error::VerificationFailed,
        Error::NoValidRecoveryId,
    ];
    assert_eq!(Error::InvalidLength.description(), "invalid length");
    assert_eq!(Error::InvalidScalar.description(), "invalid scalar");
    assert_eq!(Error::UnsupportedRecoveryId.description(), "unsupported recovery id");
    assert_eq!(Error::PointNotOnCurve.description(), "point not on curve");
    assert_eq!(Error::PointEncoding.description(), "invalid point encoding");
    assert_eq!(Error::VerificationFailed.description(), "verification failed");
    assert_eq!(Error::NoValidRecoveryId.description(), "no valid recovery id");
    for (i, a) in all.iter().enumerate() {
        assert!(!a.description().is_empty());
        for b in &all[i + 1..] {
            assert_ne!(a.description(), b.description());
        }
    }
}

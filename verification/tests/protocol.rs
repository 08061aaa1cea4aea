use p256::ecdsa::recoverable;
use p256::ecdsa::{Error, Signature, VerifyingKey};

fn hex(s: &str) -> Vec<u8> {
    let digits: Vec<u8> = s
        .bytes()
        .map(|c| match c {
            b'0'..=b'9' => c - b'0',
            b'a'..=b'f' => c - b'a' + 10,
            b'A'..=b'F' => c - b'A' + 10,
            _ => panic!("not a hex digit"),
        })
        .collect();
    digits.chunks(2).map(|pair| pair[0] * 16 + pair[1]).collect()
}

fn digest(s: &str) -> [u8; 32] {
    let mut out = [0u8; 32];
    out.copy_from_slice(&hex(s));
    out
}

/// Signature recovery test vectors
struct TestVector {
    pk: &'static str,
    sig: &'static str,
    msg: &'static str,
}

const VECTORS: &[TestVector] = &[TestVector {
    pk: "02c156afee1ce52ef83a0dd168c1144eb20008697e6664fa132ba23c128cce8055",
    sig: "63A60006C38CBFB000B352956BB5CF02B3AD1283B65FDFC56A000A0CE42E698142905B5F2F305315882E7CC7C76A7C36EA804E5D1D7511B74853CD98BD2C809101",
    msg: "0a000090b5ab205c6974c9ea841be688864633dc9ca8a357843eeacf2314649965fe22070010a5d4e84502000001000000010000003ce9390c8bd3361b348592b2c3008ece6c530e415821abb9759215e8dc83f0490e70b9cbbbcd07a80821fd7dfca9c93ae922688b37a484d5fd68dedcc2cabaa5",
}];

// The key pair and signature of the message "sample": the signature has a
// high `s`, and the point of its nonce has an even y-coordinate.
const KEY: &str = "0460fed4ba255a9d31c961eb74c6356d68c049b8923b61fa6ce669622e60f29fb67903fe1008b8bc99a41ae9e95628bc64f2f1b20c2d7e9f5177a3c294d4462299";
const SAMPLE_DIGEST: &str = "af2bdbe1aa9b6ec1e2ade1d694f41fc71a831d0268e9891562113d8a62add1bf";
const R: &str = "efd48b2aacb6a8fd1140dd9cd45e81d69d2c877b56aaf991c34d0ea84eaf3716";
const S: &str = "f7cb1c942d657c41d436c7a1b6e29f65f3e900dbb9aff4064dc4ab2f843acda8";
const NEG_S: &str = "0834e36ad29a83bf2bc9385e491d6099c8fdf9d1ed67aa7ea5f51f93782857a9";

fn signature(r: &str, s: &str) -> Signature {
    let mut bytes = hex(r);
    bytes.extend(hex(s));
    Signature::from_bytes(&bytes).unwrap()
}

fn recoverable_signature(r: &str, s: &str, v: u8) -> recoverable::Signature {
    let mut bytes = hex(r);
    bytes.extend(hex(s));
    bytes.push(v);
    recoverable::Signature::from_bytes(&bytes).unwrap()
}

#[test]
fn public_key_recovery() {
    for vector in VECTORS {
        let sig = recoverable::Signature::try_from(&hex(vector.sig)[..]).unwrap();
        let pk = sig.recover_verify_key(&hex(vector.msg)).unwrap();
        assert_eq!(&hex(vector.pk)[..], &pk.to_bytes()[..]);
    }
}

/// Wycheproof tcId: 304
#[test]
fn malleability_edge_case_valid() {
    let verifying_key_bytes =
        hex("02c156afee1ce52ef83a0dd168c1144eb20008697e6664fa132ba23c128cce8055");
    let verifying_key = VerifyingKey::from_sec1_bytes(&verifying_key_bytes).unwrap();

    let msg = hex("313233343030");
    // The two integers of the DER encoding
    // 30440220784eea04...5792022016c4c411...ec2b, in fixed width.
    let sig = signature(
        "784eea04d4a9e68260ba55b39277b2221db3793e47ec5c9301e43b45c7285792",
        "16c4c411c20aa62c314ad383d00aa1e6c145641d7ce10e52075fb10e7d8bec2b",
    );
    assert!(sig.normalize_s().is_none()); // Ensure signature is already normalized
    assert!(verifying_key.verify(&msg, &sig).is_ok());
}

#[test]
fn recovery_from_digest_bytes_matches_recovery_from_message() {
    let vector = &VECTORS[0];
    let sig = recoverable::Signature::from_bytes(&hex(vector.sig)).unwrap();
    let prehash = digest("a207d73678b50f5b9333265362490a14e3d6698c31423dba77e0769f532fd463");
    let from_digest = sig.recover_verify_key_from_digest_bytes(&prehash).unwrap();
    assert_eq!(&from_digest.to_bytes()[..], &hex(vector.pk)[..]);
    assert_eq!(sig.recover_verify_key_from_digest(&prehash), Ok(from_digest));
    assert_eq!(sig.recover_verify_key(&hex(vector.msg)), Ok(from_digest));
    // The digest of another message is another prehash and gives another key.
    let other = sig.recover_verify_key(b"another message").unwrap();
    assert_ne!(other, from_digest);
}

#[test]
fn recovery_with_the_other_id_gives_another_key() {
    let vector = &VECTORS[0];
    let mut bytes = hex(vector.sig);
    bytes[64] = 0;
    let sig = recoverable::Signature::from_bytes(&bytes).unwrap();
    let key = sig.recover_verify_key(&hex(vector.msg)).unwrap();
    assert_ne!(&key.to_bytes()[..], &hex(vector.pk)[..]);
}

#[test]
fn recovery_fails_without_a_point() {
    // No point of the curve has the x-coordinate 1.
    let one = "0000000000000000000000000000000000000000000000000000000000000001";
    for v in 0u8..=1 {
        let sig = recoverable_signature(one, S, v);
        assert_eq!(
            sig.recover_verify_key_from_digest_bytes(&digest(SAMPLE_DIGEST)),
            Err(Error::PointNotOnCurve)
        );
    }
}

#[test]
fn recovery_of_known_signature() {
    let key = VerifyingKey::from_sec1_bytes(&hex(KEY)).unwrap();
    let prehash = digest(SAMPLE_DIGEST);
    // With the signature as it was made, the nonce point has an even y.
    assert_eq!(
        recoverable_signature(R, S, 0).recover_verify_key_from_digest_bytes(&prehash),
        Ok(key)
    );
    assert_eq!(recoverable_signature(R, S, 0).recover_verify_key(b"sample"), Ok(key));
    assert_ne!(
        recoverable_signature(R, S, 1).recover_verify_key_from_digest_bytes(&prehash),
        Ok(key)
    );
    // Negating `s` mirrors the nonce point.
    assert_eq!(
        recoverable_signature(R, NEG_S, 1).recover_verify_key_from_digest_bytes(&prehash),
        Ok(key)
    );
}

#[test]
fn verify_accepts_valid_signature() {
    let key = VerifyingKey::from_sec1_bytes(&hex(KEY)).unwrap();
    let sig = signature(R, S);
    assert_eq!(key.verify_digest(&digest(SAMPLE_DIGEST), &sig), Ok(()));
    assert_eq!(key.verify(b"sample", &sig), Ok(()));
    assert_eq!(
        key.as_affine().verify_prehashed(
            p256::arithmetic::scalar::Scalar::from_bytes_reduced(&digest(SAMPLE_DIGEST)),
            &sig
        ),
        Ok(())
    );
}

#[test]
fn verify_accepts_both_signs_of_s() {
    let key = VerifyingKey::from_sec1_bytes(&hex(KEY)).unwrap();
    let prehash = digest(SAMPLE_DIGEST);
    assert_eq!(key.verify_digest(&prehash, &signature(R, S)), Ok(()));
    assert_eq!(key.verify_digest(&prehash, &signature(R, NEG_S)), Ok(()));
}

#[test]
fn verify_rejects_changed_inputs() {
    let key = VerifyingKey::from_sec1_bytes(&hex(KEY)).unwrap();
    let prehash = digest(SAMPLE_DIGEST);
    assert_eq!(key.verify(b"sample!", &signature(R, S)), Err(Error::VerificationFailed));
    let other_key = VerifyingKey::from_sec1_bytes(&hex(VECTORS[0].pk)).unwrap();
    assert_eq!(
        other_key.verify_digest(&prehash, &signature(R, S)),
        Err(Error::VerificationFailed)
    );
    let mut flipped = prehash;
    flipped[31] ^= 1;
    assert_eq!(key.verify_digest(&flipped, &signature(R, S)), Err(Error::VerificationFailed));
}

#[test]
fn verify_rejects_every_single_bit_flip_of_a_byte() {
    let key = VerifyingKey::from_sec1_bytes(&hex(KEY)).unwrap();
    let prehash = digest(SAMPLE_DIGEST);
    let mut good = hex(R);
    good.extend(hex(S));
    for position in [0usize, 31, 32, 63] {
        for bit in 0..8 {
            let mut bytes = good.clone();
            bytes[position] ^= 1 << bit;
            match Signature::from_bytes(&bytes) {
                Ok(sig) => assert_eq!(
                    key.verify_digest(&prehash, &sig),
                    Err(Error::VerificationFailed)
                ),
                Err(e) => assert_eq!(e, Error::InvalidScalar),
            }
        }
    }
}

#[test]
fn trial_recovery_finds_the_id() {
    let vector = &VECTORS[0];
    let key = VerifyingKey::from_sec1_bytes(&hex(vector.pk)).unwrap();
    let sig = Signature::from_bytes(&hex(vector.sig)[..64]).unwrap();
    let found = recoverable::Signature::from_trial_recovery(&key, &hex(vector.msg), &sig).unwrap();
    assert_eq!(found.as_ref(), &hex(vector.sig)[..]);
    assert_eq!(found.recovery_id().to_byte(), 1);
    assert_eq!(found.recover_verify_key(&hex(vector.msg)), Ok(key));
    let prehash = digest("a207d73678b50f5b9333265362490a14e3d6698c31423dba77e0769f532fd463");
    assert_eq!(
        recoverable::Signature::from_digest_trial_recovery(&key, &prehash, &sig),
        Ok(found)
    );
}

#[test]
fn trial_recovery_returns_the_low_form() {
    let key = VerifyingKey::from_sec1_bytes(&hex(KEY)).unwrap();
    let prehash = digest(SAMPLE_DIGEST);
    let from_high =
        recoverable::Signature::from_digest_trial_recovery(&key, &prehash, &signature(R, S))
            .unwrap();
    let from_low =
        recoverable::Signature::from_digest_trial_recovery(&key, &prehash, &signature(R, NEG_S))
            .unwrap();
    assert_eq!(from_high, from_low);
    assert_eq!(from_high, recoverable_signature(R, NEG_S, 1));
    assert_eq!(from_high.recover_verify_key_from_digest_bytes(&prehash), Ok(key));
    assert_eq!(key.verify_digest(&prehash, &from_high.to_signature()), Ok(()));
    assert_eq!(
        recoverable::Signature::from_trial_recovery(&key, b"sample", &signature(R, S)),
        Ok(from_high)
    );
}

#[test]
fn trial_recovery_fails_for_another_key() {
    let key = VerifyingKey::from_sec1_bytes(&hex(VECTORS[0].pk)).unwrap();
    let prehash = digest(SAMPLE_DIGEST);
    assert_eq!(
        recoverable::Signature::from_digest_trial_recovery(&key, &prehash, &signature(R, S)),
        Err(Error::NoValidRecoveryId)
    );
    let own_key = VerifyingKey::from_sec1_bytes(&hex(KEY)).unwrap();
    assert_eq!(
        recoverable::Signature::from_trial_recovery(&own_key, b"not the message", &signature(R, S)),
        Err(Error::NoValidRecoveryId)
    );
}

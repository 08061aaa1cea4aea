//! Recoverable signatures: a signature followed by a one-byte recovery
//! identifier, from which the signer's verifying key can be computed.
//!
//! The format is 65 bytes: `r` and `s`, 32 big-endian bytes each, then the
//! identifier `v`, which is 0 or 1.

use crate::arithmetic::affine::{decompress, generator, lincomb, AffinePoint, Point};
use crate::arithmetic::bytes::{read_array, write_at};
use crate::arithmetic::field::FieldElement;
use crate::arithmetic::scalar::{
    group_order, lemma_negation, low_half, s_inv, s_mul, s_neg, NonZeroScalar, Scalar,
};
use crate::ecdsa::verify::{key_result, prehash_scalar, verifies, VerifyingKey};
use crate::ecdsa::{is_signature, signature_r, signature_s};
use crate::error::Error;
use crate::hash::{sha256, sha256_digest};
use vstd::prelude::*;

verus! {

/// Size of a recoverable signature in bytes.
pub const SIZE: usize = 65;

/// The recovery identifier of the `ecdsa` crate, which also has room for the
/// flag that `r` was reduced.
#[verifier::external_type_specification]
#[verifier::external_body]
pub struct ExRecoveryId(::ecdsa::RecoveryId);

/// Whether a general recovery identifier says that `y` was odd: the flag
/// that `RecoveryId::is_y_odd` of the `ecdsa` crate reads from it.
pub uninterp spec fn general_id_y_odd(id: ::ecdsa::RecoveryId) -> bool;

/// Whether a general recovery identifier says that `r` was reduced: the flag
/// that `RecoveryId::is_x_reduced` of the `ecdsa` crate reads from it.
pub uninterp spec fn general_id_x_reduced(id: ::ecdsa::RecoveryId) -> bool;

/// `RecoveryId::new` of the `ecdsa` crate.
///
/// The identifier it makes holds the two flags it was given: each is read
/// back unchanged.
#[verifier::external_body]
fn general_id(is_y_odd: bool, is_x_reduced: bool) -> (id: ::ecdsa::RecoveryId)
    ensures
        general_id_y_odd(id) == is_y_odd,
        general_id_x_reduced(id) == is_x_reduced,
{
    ::ecdsa::RecoveryId::new(is_y_odd, is_x_reduced)
}

/// `RecoveryId::is_x_reduced` of the `ecdsa` crate: the flag of the
/// identifier that says whether `r` was reduced.
#[verifier::external_body]
fn general_id_is_x_reduced(id: ::ecdsa::RecoveryId) -> (flag: bool)
    ensures
        flag == general_id_x_reduced(id),
{
    id.is_x_reduced()
}

/// `RecoveryId::is_y_odd` of the `ecdsa` crate: the flag of the identifier
/// that says whether `y` was odd.
#[verifier::external_body]
fn general_id_is_y_odd(id: ::ecdsa::RecoveryId) -> (flag: bool)
    ensures
        flag == general_id_y_odd(id),
{
    id.is_y_odd()
}

/// Identifier used to compute a [`VerifyingKey`] from a [`Signature`]: 0 if
/// the y-coordinate of the signer's point was even, 1 if it was odd.
///
/// The values 2 and 3, which say that `r` was reduced modulo the group
/// order, are not supported.
#[derive(Clone, Copy, Debug, PartialEq, Eq)]
pub struct Id(u8);

impl View for Id {
    type V = u8;

    closed spec fn view(&self) -> u8 {
        self.0
    }
}

impl Id {
    /// The identifier is 0 or 1.
    #[verifier::type_invariant]
    pub closed spec fn wf(self) -> bool {
        self.0 <= 1
    }

    /// A well-formed identifier is 0 or 1.
    pub proof fn lemma_wf(self)
        requires
            self.wf(),
        ensures
            self@ <= 1,
    {
    }

    /// Identifiers with one value are one identifier.
    pub proof fn lemma_injective(self, other: Id)
        requires
            self@ == other@,
        ensures
            self == other,
    {
    }

    /// What decoding makes of `byte`.
    pub open spec fn decode(byte: u8) -> Result<Id, Error> {
        if byte <= 1 {
            Ok(choose|id: Id| id@ == byte && id.wf())
        } else {
            Err(Error::UnsupportedRecoveryId)
        }
    }

    /// What the two flags of a general recovery identifier give.
    pub open spec fn of_flags(is_y_odd: bool, is_x_reduced: bool) -> Result<Id, Error> {
        if is_x_reduced {
            Err(Error::UnsupportedRecoveryId)
        } else {
            Id::decode(
                if is_y_odd {
                    1u8
                } else {
                    0u8
                },
            )
        }
    }

    /// The identifier with the given byte value, which must be 0 or 1.
    pub fn new(byte: u8) -> (r: Result<Id, Error>)
        ensures
            r == Id::decode(byte),
            r matches Ok(id) ==> id@ == byte && id.wf(),
    {
        match byte {
            0 | 1 => {
                let id = Id(byte);
                proof {
                    let chosen = choose|c: Id| c@ == byte && c.wf();
                    id.lemma_injective(chosen);
                }
                Ok(id)
            },
            _ => Err(Error::UnsupportedRecoveryId),
        }
    }

    /// The same as [`Id::new`].
    pub fn try_from(byte: u8) -> (r: Result<Id, Error>)
        ensures
            r == Id::decode(byte),
            r matches Ok(id) ==> id@ == byte && id.wf(),
    {
        Id::new(byte)
    }

    /// Is `y` odd?
    pub fn is_y_odd(self) -> (r: bool)
        ensures
            r == (self@ == 1),
    {
        self.0 == 1
    }

    /// The byte value.
    pub fn to_byte(self) -> (r: u8)
        ensures
            r == self@,
            r <= 1,
    {
        proof {
            use_type_invariant(self);
        }
        self.0
    }

    /// The identifier for the given parity of `y`, unless `is_x_reduced`
    /// is set, which is not supported.
    pub fn from_flags(is_y_odd: bool, is_x_reduced: bool) -> (r: Result<Id, Error>)
        ensures
            r == Id::of_flags(is_y_odd, is_x_reduced),
            r matches Ok(id) ==> id@ == (if is_y_odd {
                1u8
            } else {
                0u8
            }) && id.wf(),
    {
        if is_x_reduced {
            Err(Error::UnsupportedRecoveryId)
        } else if is_y_odd {
            Id::new(1)
        } else {
            Id::new(0)
        }
    }

    /// The identifier that a general recovery identifier stands for.
    ///
    /// Fails with `UnsupportedRecoveryId` if the general identifier says that
    /// `r` was reduced; otherwise the identifier is 1 if it says that `y`
    /// was odd, and 0 if not.
    pub fn try_from_recovery_id(id: ::ecdsa::RecoveryId) -> (r: Result<Id, Error>)
        ensures
            r == Id::of_flags(general_id_y_odd(id), general_id_x_reduced(id)),
            r matches Ok(own) ==> own@ == (if general_id_y_odd(id) {
                1u8
            } else {
                0u8
            }) && own.wf(),
    {
        let is_x_reduced = general_id_is_x_reduced(id);
        let is_y_odd = general_id_is_y_odd(id);
        Id::from_flags(is_y_odd, is_x_reduced)
    }

    /// The general recovery identifier with this parity of `y` and with `r`
    /// not reduced.
    pub fn to_recovery_id(self) -> (general: ::ecdsa::RecoveryId)
        ensures
            general_id_y_odd(general) == (self@ == 1),
            !general_id_x_reduced(general),
    {
        general_id(self.is_y_odd(), false)
    }

    /// Going to the general identifier and back gives the identifier again.
    pub proof fn lemma_general_round_trip(self, general: ::ecdsa::RecoveryId)
        requires
            self.wf(),
            general_id_y_odd(general) == (self@ == 1),
            !general_id_x_reduced(general),
        ensures
            Id::of_flags(general_id_y_odd(general), general_id_x_reduced(general)) == Ok::<
                Id,
                Error,
            >(self),
    {
        let chosen = choose|c: Id| c@ == self@ && c.wf();
        self.lemma_injective(chosen);
    }
}

/// Whether `bytes` is a recoverable signature: a signature, then 0 or 1.
pub open spec fn is_recoverable_signature(bytes: Seq<u8>) -> bool {
    &&& bytes.len() == 65
    &&& is_signature(bytes.subrange(0, 64))
    &&& bytes[64] <= 1
}

/// The key that recovery computes from `(r, s)`, the parity of `y` and the
/// prehash scalar `z`: with `R` the point of x-coordinate `r` and that
/// parity, the point `-(z / r) G + (s / r) R`.
///
/// Fails with `PointNotOnCurve` if no point has x-coordinate `r`, or if the
/// combination is the point at infinity. The key is not held to the
/// verification equation.
pub open spec fn recovered_point(r: nat, s: nat, y_is_odd: bool, z: nat) -> Result<Point, Error> {
    match decompress(r, y_is_odd) {
        Some(big_r) => {
            let u1 = s_neg(s_mul(s_inv(r), z));
            let u2 = s_mul(s_inv(r), s);
            let q = lincomb(generator(), u1, big_r, u2);
            if q is Identity {
                Err(Error::PointNotOnCurve)
            } else {
                Ok(q)
            }
        },
        None => Err(Error::PointNotOnCurve),
    }
}

/// The key that recovery computes from the 65 bytes of a recoverable
/// signature and a 32-byte prehash.
pub open spec fn recover(sig: Seq<u8>, digest: Seq<u8>) -> Result<Point, Error> {
    recovered_point(
        signature_r(sig.subrange(0, 64)),
        signature_s(sig.subrange(0, 64)),
        sig[64] == 1,
        prehash_scalar(digest),
    )
}

/// Whether trial recovery accepts the identifier with the given parity:
/// recovery gives `key`, and `key` verifies `(r, s)`.
pub open spec fn accepts(key: Point, z: nat, r: nat, s: nat, y_is_odd: bool) -> bool {
    recovered_point(r, s, y_is_odd, z) == Ok::<Point, Error>(key) && verifies(key, z, r, s)
}

/// The identifier that trial recovery finds for `(r, s)`: the first of 0 and
/// 1 that is accepted.
pub open spec fn trial_id(key: Point, z: nat, r: nat, s: nat) -> Option<u8> {
    if accepts(key, z, r, s, false) {
        Some(0u8)
    } else if accepts(key, z, r, s, true) {
        Some(1u8)
    } else {
        None
    }
}

/// Trial recovery of a signature and of the signature with `s` negated find
/// the same identifier for the same low `s`: of the two, only the low form
/// is ever returned.
pub proof fn lemma_trial_recovery_ignores_sign(key: Point, z: nat, r: nat, s: nat)
    requires
        0 < s < group_order(),
    ensures
        low_half(s_neg(s)) == low_half(s),
        trial_id(key, z, r, low_half(s_neg(s))) == trial_id(key, z, r, low_half(s)),
{
    lemma_negation(s);
}

/// The identifier that trial recovery finds recovers the key, and the key
/// verifies the signature.
pub proof fn lemma_trial_id_recovers(key: Point, z: nat, r: nat, s: nat)
    ensures
        trial_id(key, z, r, s) matches Some(id) ==> {
            &&& id <= 1
            &&& recovered_point(r, s, id == 1, z) == Ok::<Point, Error>(key)
            &&& verifies(key, z, r, s)
        },
{
}

/// Ethereum-style recoverable signature: a [`Signature`](super::Signature)
/// followed by a one-byte recovery [`Id`], 65 bytes in all.
#[derive(Clone, Copy, Debug, PartialEq, Eq)]
pub struct Signature {
    bytes: [u8; SIZE],
}

impl View for Signature {
    type V = Seq<u8>;

    /// The 65 bytes of the encoding.
    closed spec fn view(&self) -> Seq<u8> {
        self.bytes@
    }
}

impl Signature {
    /// The first 64 bytes are a signature and the last is 0 or 1.
    #[verifier::type_invariant]
    pub closed spec fn wf(self) -> bool {
        is_recoverable_signature(self.bytes@)
    }

    /// The bytes of a well-formed value are a recoverable signature.
    pub proof fn lemma_wf(self)
        requires
            self.wf(),
        ensures
            is_recoverable_signature(self@),
    {
    }

    /// Values with the same bytes are the same value.
    pub proof fn lemma_injective(self, other: Signature)
        requires
            self@ == other@,
        ensures
            self == other,
    {
        assert(self.bytes =~= other.bytes);
    }

    /// The component `r`.
    pub open spec fn r_value(self) -> nat {
        signature_r(self@.subrange(0, 64))
    }

    /// The component `s`.
    pub open spec fn s_value(self) -> nat {
        signature_s(self@.subrange(0, 64))
    }

    /// The value of the recovery identifier.
    pub open spec fn id_value(self) -> u8 {
        self@[64]
    }

    /// The signature without the recovery identifier.
    pub open spec fn signature_part(self) -> super::Signature {
        choose|sig: super::Signature| sig@ == self@.subrange(0, 64) && sig.wf()
    }

    /// What decoding makes of `bytes`.
    pub open spec fn decode(bytes: Seq<u8>) -> Result<Signature, Error> {
        if bytes.len() != 65 {
            Err(Error::InvalidLength)
        } else if !is_signature(bytes.subrange(0, 64)) {
            Err(Error::InvalidScalar)
        } else if bytes[64] > 1 {
            Err(Error::UnsupportedRecoveryId)
        } else {
            Ok(choose|sig: Signature| sig@ == bytes && sig.wf())
        }
    }

    /// Decoding the encoding of a recoverable signature gives it back.
    pub proof fn lemma_decode_encode(self)
        requires
            self.wf(),
        ensures
            Signature::decode(self@) == Ok::<Signature, Error>(self),
    {
        let chosen = choose|sig: Signature| sig@ == self@ && sig.wf();
        self.lemma_injective(chosen);
    }

    /// Create a new recoverable signature from a regular fixed-size
    /// signature and an associated recovery [`Id`].
    ///
    /// This does not check that the [`Id`] is the right one for this
    /// signature, and it always succeeds.
    pub fn new(signature: &super::Signature, recovery_id: Id) -> (r: Result<Signature, Error>)
        ensures
            r matches Ok(sig) && sig@ == signature@ + seq![recovery_id@] && sig.wf(),
    {
        let mut bytes: [u8; SIZE] = [0u8; SIZE];
        write_at(&mut bytes, 0, signature.as_ref());
        bytes[64] = recovery_id.to_byte();
        assert(bytes@ =~= signature@ + seq![recovery_id@]);
        assert(bytes@.subrange(0, 64) =~= signature@);
        Ok(Signature { bytes })
    }

    /// Get the recovery [`Id`] for this signature.
    pub fn recovery_id(self) -> (id: Id)
        ensures
            id@ == self.id_value(),
            id.wf(),
    {
        proof {
            use_type_invariant(self);
        }
        Id(self.bytes[64])
    }

    /// Decodes a recoverable signature from `r`, `s` and the identifier.
    ///
    /// Fails with `InvalidLength` unless there are 65 bytes, with
    /// `InvalidScalar` if `r` or `s` is zero or not below the group order,
    /// and with `UnsupportedRecoveryId` if the last byte is not 0 or 1.
    pub fn from_bytes(bytes: &[u8]) -> (r: Result<Signature, Error>)
        ensures
            r == Signature::decode(bytes@),
            r matches Ok(sig) ==> sig@ == bytes@ && sig.wf(),
    {
        if bytes.len() != SIZE {
            return Err(Error::InvalidLength);
        }
        let head: [u8; 64] = read_array(bytes, 0);
        let signature = match super::Signature::from_bytes(head.as_slice()) {
            Ok(signature) => signature,
            Err(e) => {
                return Err(e);
            },
        };
        let recovery_id = match Id::try_from(bytes[64]) {
            Ok(id) => id,
            Err(e) => {
                return Err(e);
            },
        };
        let r = Signature::new(&signature, recovery_id);
        proof {
            assert(signature@ + seq![recovery_id@] =~= bytes@);
            let sig = r->Ok_0;
            let chosen = choose|c: Signature| c@ == bytes@ && c.wf();
            sig.lemma_injective(chosen);
        }
        r
    }

    /// The same as [`Signature::from_bytes`].
    pub fn try_from(bytes: &[u8]) -> (r: Result<Signature, Error>)
        ensures
            r == Signature::decode(bytes@),
            r matches Ok(sig) ==> sig@ == bytes@ && sig.wf(),
    {
        Signature::from_bytes(bytes)
    }

    /// The 65 bytes of the encoding.
    pub fn as_ref(&self) -> (r: &[u8])
        ensures
            r@ == self@,
            is_recoverable_signature(r@),
    {
        proof {
            use_type_invariant(self);
        }
        self.bytes.as_slice()
    }

    /// The signature without the recovery identifier: the first 64 bytes.
    pub fn to_signature(&self) -> (r: super::Signature)
        ensures
            r@ == self@.subrange(0, 64),
            r == self.signature_part(),
            r.wf(),
    {
        proof {
            use_type_invariant(self);
        }
        let signature = super::Signature::from_valid_bytes(read_array(self.bytes.as_slice(), 0));
        proof {
            signature.lemma_injective(self.signature_part());
        }
        signature
    }

    /// Parse the `r` component of this signature to a [`NonZeroScalar`].
    pub fn r(&self) -> (r: NonZeroScalar)
        ensures
            r@ == self.r_value(),
            r.wf(),
    {
        proof {
            use_type_invariant(self);
            assert(self.bytes@.subrange(0, 64).subrange(0, 32) =~= self.bytes@.subrange(0, 32));
        }
        NonZeroScalar::from_valid_bytes(read_array(self.bytes.as_slice(), 0))
    }

    /// Parse the `s` component of this signature to a [`NonZeroScalar`].
    pub fn s(&self) -> (s: NonZeroScalar)
        ensures
            s@ == self.s_value(),
            s.wf(),
    {
        proof {
            use_type_invariant(self);
            assert(self.bytes@.subrange(0, 64).subrange(32, 64) =~= self.bytes@.subrange(32, 64));
        }
        NonZeroScalar::from_valid_bytes(read_array(self.bytes.as_slice(), 32))
    }

    /// Recover the public key used to create the given signature as a
    /// [`VerifyingKey`] from the raw bytes of a message digest.
    ///
    /// The key returned is not held to the verification equation: a caller
    /// who needs that verifies the signature with it.
    pub fn recover_verify_key_from_digest_bytes(&self, digest_bytes: &[u8; 32]) -> (res: Result<
        VerifyingKey,
        Error,
    >)
        ensures
            key_result(res) == recover(self@, digest_bytes@),
            res matches Ok(key) ==> key.wf(),
    {
        let r = self.r();
        let s = self.s();
        let z = Scalar::from_bytes_reduced(digest_bytes);
        let x = FieldElement::from_reduced_bytes(r.to_bytes());
        let big_r = match AffinePoint::decompress(&x, self.recovery_id().is_y_odd()) {
            Some(big_r) => big_r,
            None => {
                return Err(Error::PointNotOnCurve);
            },
        };
        let r_inv = r.invert();
        let u1 = r_inv.mul(&z).negate();
        let u2 = r_inv.mul(&s.to_scalar());
        let pk = AffinePoint::lincomb(&AffinePoint::generator(), &u1, &big_r, &u2);
        VerifyingKey::from_affine(pk)
    }

    /// Recover the public key used to create the given signature as a
    /// [`VerifyingKey`] from the finalized 32-byte digest of the message.
    pub fn recover_verify_key_from_digest(&self, digest: &[u8; 32]) -> (res: Result<
        VerifyingKey,
        Error,
    >)
        ensures
            key_result(res) == recover(self@, digest@),
            res matches Ok(key) ==> key.wf(),
    {
        self.recover_verify_key_from_digest_bytes(digest)
    }

    /// Recover the public key used to create the given signature as a
    /// [`VerifyingKey`], with SHA-256 as the message digest.
    pub fn recover_verify_key(&self, msg: &[u8]) -> (res: Result<VerifyingKey, Error>)
        ensures
            key_result(res) == recover(self@, sha256_digest(msg@)),
            res matches Ok(key) ==> key.wf(),
    {
        let digest = sha256(msg);
        self.recover_verify_key_from_digest_bytes(&digest)
    }

    /// Given a public key, message digest, and signature, use trial recovery
    /// to determine if a suitable recovery ID exists, or return an error
    /// otherwise.
    ///
    /// The signature is first brought into its low form, `s` replaced by
    /// `-s` where `s` lies in the high half. The first identifier of 0 and 1
    /// is taken for which recovery gives `public_key` and `public_key`
    /// verifies the low form. With neither, the error is
    /// `NoValidRecoveryId`.
    pub fn from_digest_trial_recovery(
        public_key: &VerifyingKey,
        digest: &[u8; 32],
        signature: &super::Signature,
    ) -> (res: Result<Signature, Error>)
        ensures
            match res {
                Ok(sig) => {
                    &&& sig.wf()
                    &&& sig.r_value() == signature.r_value()
                    &&& sig.s_value() == low_half(signature.s_value())
                    &&& trial_id(
                        public_key@,
                        prehash_scalar(digest@),
                        signature.r_value(),
                        low_half(signature.s_value()),
                    ) == Some(sig.id_value())
                    &&& recover(sig@, digest@) == Ok::<Point, Error>(public_key@)
                },
                Err(e) => {
                    &&& e == Error::NoValidRecoveryId
                    &&& trial_id(
                        public_key@,
                        prehash_scalar(digest@),
                        signature.r_value(),
                        low_half(signature.s_value()),
                    ) is None
                },
            },
    {
        let low = match signature.normalize_s() {
            Some(low) => low,
            None => *signature,
        };
        let ghost key = public_key@;
        let ghost z = prehash_scalar(digest@);
        let ghost r = low.r_value();
        let ghost s = low.s_value();
        let mut byte: u8 = 0;
        while byte < 2
            invariant
                byte <= 2,
                key == public_key@,
                z == prehash_scalar(digest@),
                r == low.r_value(),
                s == low.s_value(),
                r == signature.r_value(),
                s == low_half(signature.s_value()),
                byte >= 1 ==> !accepts(key, z, r, s, false),
                byte >= 2 ==> !accepts(key, z, r, s, true),
            decreases 2 - byte,
        {
            if let Ok(recovery_id) = Id::new(byte) {
                if let Ok(candidate) = Signature::new(&low, recovery_id) {
                    proof {
                        assert(candidate@.subrange(0, 64) =~= low@);
                        assert(candidate.id_value() == byte);
                    }
                    if let Ok(recovered_key) = candidate.recover_verify_key_from_digest_bytes(
                        digest,
                    ) {
                        if public_key.equals(&recovered_key) && public_key.verify_digest(
                            digest,
                            &low,
                        ).is_ok() {
                            proof {
                                assert(accepts(key, z, r, s, byte == 1));
                                assert(!accepts(key, z, r, s, false) || byte == 0);
                            }
                            return Ok(candidate);
                        }
                    }
                }
            }
            byte = byte + 1;
        }
        Err(Error::NoValidRecoveryId)
    }

    /// Given a public key, message, and signature, use trial recovery to
    /// determine if a suitable recovery ID exists, or return an error
    /// otherwise, with SHA-256 as the message digest.
    pub fn from_trial_recovery(
        public_key: &VerifyingKey,
        msg: &[u8],
        signature: &super::Signature,
    ) -> (res: Result<Signature, Error>)
        ensures
            match res {
                Ok(sig) => {
                    &&& sig.wf()
                    &&& sig.r_value() == signature.r_value()
                    &&& sig.s_value() == low_half(signature.s_value())
                    &&& trial_id(
                        public_key@,
                        prehash_scalar(sha256_digest(msg@)),
                        signature.r_value(),
                        low_half(signature.s_value()),
                    ) == Some(sig.id_value())
                    &&& recover(sig@, sha256_digest(msg@)) == Ok::<Point, Error>(public_key@)
                },
                Err(e) => {
                    &&& e == Error::NoValidRecoveryId
                    &&& trial_id(
                        public_key@,
                        prehash_scalar(sha256_digest(msg@)),
                        signature.r_value(),
                        low_half(signature.s_value()),
                    ) is None
                },
            },
    {
        let digest = sha256(msg);
        Signature::from_digest_trial_recovery(public_key, &digest, signature)
    }
}

impl From<Signature> for super::Signature {
    /// Drops the recovery identifier.
    fn from(sig: Signature) -> (r: super::Signature) {
        sig.to_signature()
    }
}

impl vstd::std_specs::convert::FromSpecImpl<Signature> for super::Signature {
    open spec fn obeys_from_spec() -> bool {
        true
    }

    open spec fn from_spec(sig: Signature) -> super::Signature {
        sig.signature_part()
    }
}

impl From<Id> for u8 {
    /// The byte value of the identifier.
    fn from(id: Id) -> (r: u8) {
        id.to_byte()
    }
}

impl vstd::std_specs::convert::FromSpecImpl<Id> for u8 {
    open spec fn obeys_from_spec() -> bool {
        true
    }

    open spec fn from_spec(id: Id) -> u8 {
        id@
    }
}

} // verus!

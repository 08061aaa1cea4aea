//! ECDSA signatures over P-256: the fixed-width signature, the recoverable
//! signature with its recovery identifier, and verifying keys.

use crate::arithmetic::bytes::{be_value, read_array, write_at};
use crate::arithmetic::scalar::{is_high, is_nonzero_scalar, s_neg, NonZeroScalar};
use vstd::prelude::*;

pub mod recoverable;
pub mod verify;

pub use crate::ecdsa::verify::VerifyingKey;
pub use crate::error::Error;

verus! {

/// Whether `bytes` is a signature: 64 bytes, `r` then `s`, each a scalar
/// from 1 to `n - 1`.
pub open spec fn is_signature(bytes: Seq<u8>) -> bool {
    &&& bytes.len() == 64
    &&& is_nonzero_scalar(bytes.subrange(0, 32))
    &&& is_nonzero_scalar(bytes.subrange(32, 64))
}

/// The component `r` of a signature's bytes.
pub open spec fn signature_r(bytes: Seq<u8>) -> nat {
    be_value(bytes.subrange(0, 32))
}

/// The component `s` of a signature's bytes.
pub open spec fn signature_s(bytes: Seq<u8>) -> nat {
    be_value(bytes.subrange(32, 64))
}

/// An ECDSA signature: the pair `(r, s)` of scalars that are not zero, as 64
/// bytes.
#[derive(Clone, Copy, Debug, PartialEq, Eq)]
pub struct Signature {
    bytes: [u8; 64],
}

impl View for Signature {
    type V = Seq<u8>;

    /// The 64 bytes of the encoding.
    closed spec fn view(&self) -> Seq<u8> {
        self.bytes@
    }
}

impl Signature {
    /// Both components are scalars that are not zero.
    #[verifier::type_invariant]
    pub closed spec fn wf(self) -> bool {
        is_signature(self.bytes@)
    }

    /// The bytes of a well-formed signature are a signature.
    pub proof fn lemma_wf(self)
        requires
            self.wf(),
        ensures
            is_signature(self@),
    {
    }

    /// Signatures with the same bytes are the same signature.
    pub proof fn lemma_injective(self, other: Signature)
        requires
            self@ == other@,
        ensures
            self == other,
    {
        assert(self.bytes =~= other.bytes);
    }

    /// The component `r`.
    pub open spec fn r_value(self) -> nat {
        signature_r(self@)
    }

    /// The component `s`.
    pub open spec fn s_value(self) -> nat {
        signature_s(self@)
    }

    /// What decoding makes of `bytes`.
    pub open spec fn decode(bytes: Seq<u8>) -> Result<Signature, Error> {
        if bytes.len() != 64 {
            Err(Error::InvalidLength)
        } else if !is_signature(bytes) {
            Err(Error::InvalidScalar)
        } else {
            Ok(choose|sig: Signature| sig@ == bytes && sig.wf())
        }
    }

    /// Decoding the encoding of a signature gives the signature back.
    pub proof fn lemma_decode_encode(self)
        requires
            self.wf(),
        ensures
            Signature::decode(self@) == Ok::<Signature, Error>(self),
    {
        let chosen = choose|sig: Signature| sig@ == self@ && sig.wf();
        self.lemma_injective(chosen);
    }

    /// Decodes a signature from `r` and `s`, 32 big-endian bytes each.
    ///
    /// Fails with `InvalidLength` unless there are 64 bytes, and with
    /// `InvalidScalar` if either half is zero or not below the group order.
    pub fn from_bytes(bytes: &[u8]) -> (r: Result<Signature, Error>)
        ensures
            r == Signature::decode(bytes@),
            r matches Ok(sig) ==> sig@ == bytes@ && sig.wf(),
    {
        if bytes.len() != 64 {
            return Err(Error::InvalidLength);
        }
        let r_bytes: [u8; 32] = read_array(bytes, 0);
        let s_bytes: [u8; 32] = read_array(bytes, 32);
        if NonZeroScalar::from_bytes(&r_bytes).is_none() || NonZeroScalar::from_bytes(
            &s_bytes,
        ).is_none() {
            return Err(Error::InvalidScalar);
        }
        let all: [u8; 64] = read_array(bytes, 0);
        assert(all@ =~= bytes@);
        let sig = Signature { bytes: all };
        proof {
            let chosen = choose|c: Signature| c@ == bytes@ && c.wf();
            sig.lemma_injective(chosen);
        }
        Ok(sig)
    }

    /// The signature that bytes hold which are known to be a signature.
    pub(crate) fn from_valid_bytes(bytes: [u8; 64]) -> (sig: Signature)
        requires
            is_signature(bytes@),
        ensures
            sig@ == bytes@,
            sig.wf(),
    {
        Signature { bytes }
    }

    /// The same as [`Signature::from_bytes`].
    pub fn try_from(bytes: &[u8]) -> (r: Result<Signature, Error>)
        ensures
            r == Signature::decode(bytes@),
            r matches Ok(sig) ==> sig@ == bytes@ && sig.wf(),
    {
        Signature::from_bytes(bytes)
    }

    /// The signature with the given components.
    pub fn from_scalars(r: &NonZeroScalar, s: &NonZeroScalar) -> (sig: Signature)
        ensures
            sig.r_value() == r@,
            sig.s_value() == s@,
            sig.wf(),
    {
        let r_bytes = r.to_bytes();
        let s_bytes = s.to_bytes();
        let mut bytes: [u8; 64] = [0u8; 64];
        write_at(&mut bytes, 0, r_bytes.as_slice());
        write_at(&mut bytes, 32, s_bytes.as_slice());
        assert(bytes@.subrange(0, 32) =~= r_bytes@);
        assert(bytes@.subrange(32, 64) =~= s_bytes@);
        Signature { bytes }
    }

    /// The 64 bytes of the encoding.
    pub fn as_ref(&self) -> (r: &[u8])
        ensures
            r@ == self@,
            is_signature(r@),
    {
        proof {
            use_type_invariant(self);
        }
        self.bytes.as_slice()
    }

    /// The 64 bytes of the encoding, by value.
    pub fn to_bytes(&self) -> (r: [u8; 64])
        ensures
            r@ == self@,
            is_signature(r@),
    {
        proof {
            use_type_invariant(self);
        }
        self.bytes
    }

    /// The component `r`.
    pub fn r(&self) -> (r: NonZeroScalar)
        ensures
            r@ == self.r_value(),
            r.wf(),
    {
        proof {
            use_type_invariant(self);
        }
        NonZeroScalar::from_valid_bytes(read_array(self.bytes.as_slice(), 0))
    }

    /// The component `s`.
    pub fn s(&self) -> (s: NonZeroScalar)
        ensures
            s@ == self.s_value(),
            s.wf(),
    {
        proof {
            use_type_invariant(self);
        }
        NonZeroScalar::from_valid_bytes(read_array(self.bytes.as_slice(), 32))
    }

    /// The signature `(r, -s)` where `s` lies in the high half, and nothing
    /// where `s` is low already.
    pub fn normalize_s(&self) -> (r: Option<Signature>)
        ensures
            r is Some <==> is_high(self.s_value()),
            r matches Some(low) ==> {
                &&& low.r_value() == self.r_value()
                &&& low.s_value() == s_neg(self.s_value())
                &&& low.wf()
            },
    {
        let s = self.s();
        if s.is_high() {
            Some(Signature::from_scalars(&self.r(), &s.negate()))
        } else {
            None
        }
    }
}

} // verus!

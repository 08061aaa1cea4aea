//! The error kinds that decoding, verification and recovery report.

use vstd::prelude::*;

verus! {

/// Why an operation of this crate failed.
///
/// No variant carries data: a failure never reveals part of a scalar or a key.
#[derive(Clone, Copy, Debug, PartialEq, Eq, Hash)]
pub enum Error {
    /// The input does not have the byte count of the format being decoded.
    InvalidLength,
    /// A 32-byte half of a signature is zero or not below the group order.
    InvalidScalar,
    /// The recovery identifier is not 0 or 1, or its x-reduced flag is set.
    UnsupportedRecoveryId,
    /// The coordinates given do not name an affine point of the curve.
    PointNotOnCurve,
    /// The octet string is not a SEC1 encoding of a point.
    PointEncoding,
    /// The signature does not satisfy the verification equation.
    VerificationFailed,
    /// Neither recovery identifier reproduces the given public key.
    NoValidRecoveryId,
}

impl Error {
    /// The words that describe the error.
    pub open spec fn text(self) -> Seq<char> {
        match self {
            Error::InvalidLength => "invalid length"@,
            Error::InvalidScalar => "invalid scalar"@,
            Error::UnsupportedRecoveryId => "unsupported recovery id"@,
            Error::PointNotOnCurve => "point not on curve"@,
            Error::PointEncoding => "invalid point encoding"@,
            Error::VerificationFailed => "verification failed"@,
            Error::NoValidRecoveryId => "no valid recovery id"@,
        }
    }

    /// A short description, fit for a log line.
    pub fn description(&self) -> (text: &'static str)
        ensures
            text@ == self.text(),
    {
        match self {
            Error::InvalidLength => "invalid length",
            Error::InvalidScalar => "invalid scalar",
            Error::UnsupportedRecoveryId => "unsupported recovery id",
            Error::PointNotOnCurve => "point not on curve",
            Error::PointEncoding => "invalid point encoding",
            Error::VerificationFailed => "verification failed",
            Error::NoValidRecoveryId => "no valid recovery id",
        }
    }
}

} // verus!

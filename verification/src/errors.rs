//! The error taxonomy of the verifier.

use vstd::prelude::*;

verus! {

/// Why a verification call was rejected.
///
/// `MalformedPoint` means some input byte string could not be read as a
/// point or scalar at all; `ShapeMismatch` means the public-input count and
/// the input-commitment count disagree; `VerificationFailed` means every
/// input was well-formed but the proof itself does not hold (the pairing
/// equation fails, or the accumulated point does not match the one supplied
/// in the transcript).  The three are distinct so that a caller can tell
/// "proof is invalid" from "input was garbage".
#[derive(Clone, Copy, Debug, PartialEq, Eq, Structural)]
pub enum VerifyError {
    MalformedPoint,
    ShapeMismatch,
    VerificationFailed,
}

} // verus!

//! The keyed permutation capability: FF1 format-preserving encryption over
//! AES-256 with radix 10, consumed through a single trusted wrapper.

use vstd::prelude::*;
use aes::Aes256;
use fpe::ff1::{FlexibleNumeralString, FF1};

verus! {

/// Why a draw from the capability can fail.
#[derive(Clone, Copy, Debug, PartialEq, Eq, Structural)]
pub enum IdError {
    /// The capability rejected the key or the radix when it was set up.
    InvalidConfiguration,
    /// The capability rejected an individual encryption request.
    CryptoFailure,
}

/// The numeral string that FF1 over AES-256 with radix 10 returns when the
/// given input numeral string is encrypted under the given 256-bit key and
/// tweak. FF1 is a deterministic cipher, so this is a function of the three
/// arguments alone.
pub uninterp spec fn ff1_permuted(key: Seq<u8>, tweak: Seq<u8>, input: Seq<u16>) -> Seq<u16>;

/// Relies on fpe's `FF1::new` and `FF1::encrypt` with the aes crate's
/// `Aes256`: construction accepts every 32-byte key and the radix 10, and
/// encryption of a numeral string whose numerals are all below the radix
/// succeeds, depends on key, tweak and input alone, and returns a numeral
/// string of the same length whose numerals are again below the radix.
#[verifier::external_body]
pub(crate) fn ff1_encrypt_digits(key: &[u8; 32], tweak: &[u8], input: &[u16]) -> (r: Result<
    Vec<u16>,
    IdError,
>)
    requires
        forall|i: int| 0 <= i < input@.len() ==> input@[i] <= 9,
    ensures
        r is Ok,
        r matches Ok(out) ==> out@ == ff1_permuted(key@, tweak@, input@) && out@.len()
            == input@.len() && (forall|i: int| 0 <= i < out@.len() ==> out@[i] <= 9),
{
    let ff = match FF1::<Aes256>::new(key, 10) {
        Ok(ff) => ff,
        Err(()) => return Err(IdError::InvalidConfiguration),
    };
    match ff.encrypt(tweak, &FlexibleNumeralString::from(input.to_vec())) {
        Ok(out) => Ok(Vec::from(out)),
        Err(()) => Err(IdError::CryptoFailure),
    }
}

} // verus!

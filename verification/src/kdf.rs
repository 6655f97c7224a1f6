//! HKDF-SHA256 extract and expand helpers.

use vstd::prelude::*;

use crate::errors::CryptoError;
use crate::primitives::hmac_of;

verus! {

/// The HKDF-SHA256 expand output of the given length, determined by the
/// pseudo-random key and the info string.
pub uninterp spec fn hkdf_expand_of(prk: Seq<u8>, info: Seq<u8>, len: nat) -> Seq<u8>;

/// Relies on hkdf::Hkdf::<sha2::Sha256>::extract: per RFC 5869, HKDF-Extract
/// is a single HMAC-SHA256 call keyed by the salt over the input key
/// material, so its result is the already named HMAC value; extraction never
/// fails.
#[verifier::external_body]
pub fn hkdf_extract(salt: &Vec<u8>, ikm: &Vec<u8>) -> (r: Vec<u8>)
    ensures
        r@ == hmac_of(salt@, ikm@),
        r@.len() == 32,
{
    let (prk, _) = hkdf::Hkdf::<sha2::Sha256>::extract(Some(salt.as_slice()), ikm.as_slice());
    prk.to_vec()
}

/// Relies on hkdf::Hkdf::<sha2::Sha256>::from_prk and expand: the output key
/// material is a function of the pseudo-random key, the info string and the
/// requested length alone; from_prk rejects keys shorter than 32 bytes and
/// expand rejects lengths over 255 hash outputs (8160 bytes); both failures
/// surface as `KeyDerivationFailed`.
#[verifier::external_body]
pub fn hkdf_expand(prk: &Vec<u8>, info: &Vec<u8>, length: usize) -> (r: Result<
    Vec<u8>,
    CryptoError,
>)
    ensures
        r matches Ok(okm) ==> okm@ == hkdf_expand_of(prk@, info@, length as nat) && okm@.len()
            == length,
        (r is Ok) <==> (prk@.len() >= 32 && length <= 8160),
        r matches Err(e) ==> e == CryptoError::KeyDerivationFailed,
{
    let hk = match hkdf::Hkdf::<sha2::Sha256>::from_prk(prk.as_slice()) {
        Ok(h) => h,
        Err(_) => {
            return Err(CryptoError::KeyDerivationFailed);
        },
    };
    let mut okm = vec![0u8; length];
    match hk.expand(info.as_slice(), &mut okm) {
        Ok(()) => Ok(okm),
        Err(_) => Err(CryptoError::KeyDerivationFailed),
    }
}

} // verus!

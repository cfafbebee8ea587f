//! Hashing, signing and signature recovery, done by `alloy-primitives` and
//! `alloy-signer-local`.
use vstd::prelude::*;
use alloy_signer::SignerSync;

verus! {

/// Name for the Keccak-256 digest of `data` as `alloy_primitives::keccak256`
/// computes it.
pub uninterp spec fn spec_keccak256(data: Seq<u8>) -> Seq<u8>;

/// Name for the address that signed `message` (EIP-191 personal message) with the
/// 65-byte signature `signature`, as `alloy_primitives::Signature::from_raw`
/// followed by `Signature::recover_address_from_msg` finds it; `None` where either
/// fails.
pub uninterp spec fn spec_recover_signer(signature: Seq<u8>, message: Seq<u8>) -> Option<Seq<u8>>;

/// Keccak-256 digest.
///
/// Trusted: calls `alloy_primitives::keccak256`; the contract claims only that the
/// 32-byte result is the named digest of the input.
#[verifier::external_body]
pub(crate) fn keccak256(data: &[u8]) -> (h: [u8; 32])
    ensures
        h@ == spec_keccak256(data@),
{
    alloy_primitives::keccak256(data).0
}

/// Recovers the address that signed `message` with the raw signature `signature`
/// (`r`, `s`, `v` in 65 bytes).
///
/// Trusted: parses the signature with `alloy_primitives::Signature::from_raw`,
/// which fails unless it gets exactly 65 bytes with a valid `v`, and recovers the
/// signer with `Signature::recover_address_from_msg`. The contract claims that the
/// result is the named recovery of these two inputs, and that it is `None` unless
/// the signature has 65 bytes.
#[verifier::external_body]
pub(crate) fn recover_signer(signature: &[u8], message: &[u8]) -> (r: Option<[u8; 20]>)
    ensures
        r is None <==> spec_recover_signer(signature@, message@) is None,
        r matches Some(a) ==> spec_recover_signer(signature@, message@) == Some(a@),
        r is Some ==> signature@.len() == 65,
{
    match alloy_primitives::Signature::from_raw(signature) {
        Ok(sig) => match sig.recover_address_from_msg(message) {
            Ok(address) => Some(address.0.0),
            Err(_) => None,
        },
        Err(_) => None,
    }
}


/// Name for the address of the key whose secret scalar is `secret` (32 bytes,
/// big-endian), as `alloy_signer_local::PrivateKeySigner::from_slice` followed by
/// `address` finds it; `None` where the bytes are no valid key.
pub uninterp spec fn spec_signer_address(secret: Seq<u8>) -> Option<Seq<u8>>;

/// Name for the 65-byte signature (`r`, `s`, `v`) that the key `secret` makes over
/// `message` as an EIP-191 personal message, as `PrivateKeySigner::sign_message_sync`
/// makes it; `None` where signing fails.
pub uninterp spec fn spec_sign_message(secret: Seq<u8>, message: Seq<u8>) -> Option<Seq<u8>>;

/// The address of a key.
///
/// Trusted: calls `alloy_signer_local::PrivateKeySigner::from_slice`, which refuses
/// bytes that are no valid secret key, and `address`. The contract claims only that
/// the result is the named address of the key.
#[verifier::external_body]
pub(crate) fn signer_address(secret: &[u8; 32]) -> (r: Option<[u8; 20]>)
    ensures
        r is Some <==> spec_signer_address(secret@) is Some,
        r matches Some(a) ==> spec_signer_address(secret@) == Some(a@),
{
    match alloy_signer_local::PrivateKeySigner::from_slice(secret) {
        Ok(signer) => Some(signer.address().0.0),
        Err(_) => None,
    }
}

/// Signs a message as an EIP-191 personal message.
///
/// Trusted: calls `PrivateKeySigner::from_slice` and `sign_message_sync`, and gives
/// the signature's 65 bytes (`Signature::as_bytes`). The contract claims that the
/// result is the named signature, that a signature comes only from a valid key,
/// and that recovering the signer of that signature over the same message (as
/// `recover_signer` does) gives the key's address: what signing and recovery by
/// EIP-191 are documented to do.
#[verifier::external_body]
pub(crate) fn sign_message(secret: &[u8; 32], message: &[u8]) -> (r: Option<[u8; 65]>)
    ensures
        r is Some <==> spec_sign_message(secret@, message@) is Some,
        r matches Some(sig) ==> spec_sign_message(secret@, message@) == Some(sig@)
            && spec_signer_address(secret@) is Some && spec_recover_signer(sig@, message@)
            == spec_signer_address(secret@),
{
    match alloy_signer_local::PrivateKeySigner::from_slice(secret) {
        Ok(signer) => match signer.sign_message_sync(message) {
            Ok(sig) => Some(sig.as_bytes()),
            Err(_) => None,
        },
        Err(_) => None,
    }
}

/// A fresh random secret key.
///
/// Trusted: calls `PrivateKeySigner::random` and gives the key's bytes
/// (`to_bytes`). Of the result, which is random, the contract claims only that it
/// is a valid key.
#[verifier::external_body]
pub(crate) fn random_secret() -> (r: [u8; 32])
    ensures
        spec_signer_address(r@) is Some,
{
    alloy_signer_local::PrivateKeySigner::random().to_bytes().0
}
} // verus!

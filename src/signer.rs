//! Who signed a digest: the address of the key that a recoverable signature was
//! made with, the last 20 bytes of the Keccak-256 hash of that public key.

use secp256k1::ecdsa::{RecoverableSignature, RecoveryId};
use secp256k1::Message;
use vstd::prelude::*;

use crate::block::{keccak256, keccak_of, HASH_LEN};
use crate::validators::Address;

verus! {

/// Number of bytes in a recoverable signature: 64 compact bytes, then the recovery id.
pub const SIGNATURE_LEN: usize = 65;

/// The 64-byte public key (uncompressed, without its tag byte) that `signature`
/// was made with over `digest`, where one can be recovered.
pub uninterp spec fn recovered_key_of(signature: Seq<u8>, digest: Seq<u8>) -> Option<Seq<u8>>;

/// Relies on secp256k1's `RecoverableSignature::recover_ecdsa` (the signature read
/// by `from_compact` with its last byte as recovery id, the digest as message,
/// the key written by `serialize_uncompressed`): the key the signature was made
/// with, which depends on the signature and the digest alone.
#[verifier::external_body]
fn recover_public_key(signature: &[u8], digest: &[u8]) -> (r: Option<Vec<u8>>)
    requires
        signature@.len() == SIGNATURE_LEN,
        digest@.len() == HASH_LEN,
    ensures
        r.is_some() == recovered_key_of(signature@, digest@).is_some(),
        r.is_some() ==> r.unwrap()@ == recovered_key_of(signature@, digest@).unwrap(),
{
    let recid = RecoveryId::try_from(signature[64] as i32).ok()?;
    let sig = RecoverableSignature::from_compact(&signature[..64], recid).ok()?;
    let msg: [u8; 32] = digest.try_into().ok()?;
    let key = sig.recover_ecdsa(Message::from_digest(msg)).ok()?;
    Some(key.serialize_uncompressed()[1..].to_vec())
}

/// The address that signed `digest` with `signature`, if the two are well formed
/// and a key can be recovered.
pub open spec fn signer_of(signature: Seq<u8>, digest: Seq<u8>) -> Option<Seq<u8>> {
    if signature.len() == SIGNATURE_LEN && digest.len() == HASH_LEN {
        match recovered_key_of(signature, digest) {
            Some(key) => Some(keccak_of(key).subrange(12, 32)),
            None => None,
        }
    } else {
        None
    }
}

/// The address that signed `digest` with `signature`.
pub fn signer_address(signature: &[u8], digest: &[u8]) -> (r: Option<Address>)
    ensures
        r.is_some() == signer_of(signature@, digest@).is_some(),
        r.is_some() ==> r.unwrap()@ == signer_of(signature@, digest@).unwrap(),
{
    if signature.len() != SIGNATURE_LEN || digest.len() != HASH_LEN {
        return None;
    }
    let key = match recover_public_key(signature, digest) {
        Some(k) => k,
        None => return None,
    };
    let h = keccak256(key.as_slice());
    let mut out: Address = Vec::new();
    let mut i: usize = 12;
    while i < 32
        invariant
            12 <= i <= 32,
            h@.len() == 32,
            out@ == h@.subrange(12, i as int),
        decreases 32 - i,
    {
        out.push(h[i]);
        assert(h@.subrange(12, i + 1) =~= h@.subrange(12, i as int).push(h@[i as int]));
        i = i + 1;
    }
    Some(out)
}

} // verus!

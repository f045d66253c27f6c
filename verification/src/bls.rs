//! BLS12-381 signature checks, made by the `bls-signatures` crate.

use vstd::prelude::*;

use bls_signatures::Serialize;

use crate::types::BlsPublicKey;

verus! {

/// Whether `bytes` decode as a compressed BLS12-381 G2 signature.
pub uninterp spec fn bls_signature_decodes(bytes: Seq<u8>) -> bool;

/// Whether `bytes` decode as a compressed BLS12-381 G1 public key.
pub uninterp spec fn bls_public_key_decodes(bytes: Seq<u8>) -> bool;

/// The compressed sum of the public keys `a` and `b` (G1 point addition), or none when
/// one of them does not decode.
pub uninterp spec fn bls_key_sum(a: Seq<u8>, b: Seq<u8>) -> Option<Seq<u8>>;

/// Whether `signature` verifies over `message` for the public key `key`; false when
/// the signature or the key does not decode.
pub uninterp spec fn bls_verifies(signature: Seq<u8>, message: Seq<u8>, key: Seq<u8>) -> bool;

/// The bytes of each key of `keys`.
pub open spec fn keys_bytes(keys: Seq<BlsPublicKey>) -> Seq<Seq<u8>> {
    keys.map_values(|k: BlsPublicKey| k.spec_bytes())
}

/// The compressed sum of the public keys `keys`, added from the first one on; none for
/// no key, or when a key does not decode.
pub open spec fn key_sum(keys: Seq<Seq<u8>>) -> Option<Seq<u8>>
    decreases keys.len(),
{
    if keys.len() == 0 {
        None
    } else if keys.len() == 1 {
        Some(keys[0])
    } else {
        match key_sum(keys.drop_last()) {
            None => None,
            Some(s) => bls_key_sum(s, keys.last()),
        }
    }
}

/// Whether `signature`, aggregated by the holders of `keys` over one `message`,
/// verifies: it verifies for the sum of the keys.
pub open spec fn bls_aggregate_verifies(signature: Seq<u8>, message: Seq<u8>, keys: Seq<Seq<u8>>) -> bool {
    match key_sum(keys) {
        Some(k) => bls_verifies(signature, message, k),
        None => false,
    }
}

/// Whether `proof` proves possession of the secret of `key`: it is a signature, by
/// the key, over the key's own bytes.
pub open spec fn bls_possession_verifies(key: Seq<u8>, proof: Seq<u8>) -> bool {
    bls_verifies(proof, key, key)
}

/// `Signature::from_bytes` of `bls_signatures`: whether the bytes decode as a
/// signature (their length is that of a compressed G2 point and the point decodes).
/// A decode depends on the bytes alone.
#[verifier::external_body]
pub(crate) fn signature_decodes(bytes: &Vec<u8>) -> (r: bool)
    ensures
        r == bls_signature_decodes(bytes@),
{
    bls_signatures::Signature::from_bytes(&bytes[..]).is_ok()
}

/// `PublicKey::from_bytes` of `bls_signatures`: whether the bytes decode as a
/// compressed G1 point. A decode depends on the bytes alone.
#[verifier::external_body]
pub(crate) fn public_key_decodes(bytes: &Vec<u8>) -> (r: bool)
    ensures
        r == bls_public_key_decodes(bytes@),
{
    bls_signatures::PublicKey::from_bytes(&bytes[..]).is_ok()
}

/// The sum of two public keys: both decoded by `PublicKey::from_bytes`, added as
/// `bls12_381` points, and the sum compressed by `as_bytes`; none when one does not
/// decode. The sum depends on the two keys alone.
#[verifier::external_body]
fn add_key_bytes(a: &Vec<u8>, b: &Vec<u8>) -> (r: Option<Vec<u8>>)
    ensures
        r matches Some(v) ==> bls_key_sum(a@, b@) == Some(v@),
        r is None ==> bls_key_sum(a@, b@) is None,
{
    let pa = bls_signatures::PublicKey::from_bytes(&a[..]).ok()?;
    let pb = bls_signatures::PublicKey::from_bytes(&b[..]).ok()?;
    let sum = bls12_381::G1Projective::from(pa) + bls12_381::G1Projective::from(pb);
    Some(bls_signatures::PublicKey::from(sum).as_bytes())
}

/// `bls_signatures::verify` of the decoded `signature` against `hash(message)` and the
/// decoded `key`; false when one of them does not decode. The outcome depends on the
/// arguments alone.
#[verifier::external_body]
fn verifies(signature: &Vec<u8>, message: &Vec<u8>, key: &Vec<u8>) -> (r: bool)
    ensures
        r == bls_verifies(signature@, message@, key@),
{
    let sig = match bls_signatures::Signature::from_bytes(&signature[..]) {
        Ok(s) => s,
        Err(_) => return false,
    };
    let pk = match bls_signatures::PublicKey::from_bytes(&key[..]) {
        Ok(p) => p,
        Err(_) => return false,
    };
    bls_signatures::verify(&sig, &[bls_signatures::hash(&message[..])], &[pk])
}

/// Once the sum of a prefix of the keys fails, so does the sum of all of them.
proof fn lemma_key_sum_fails(keys: Seq<Seq<u8>>, k: int)
    requires
        1 <= k <= keys.len(),
        key_sum(keys.take(k)) is None,
    ensures
        key_sum(keys) is None,
    decreases keys.len() - k,
{
    if k < keys.len() {
        assert(keys.take(k + 1).drop_last() =~= keys.take(k));
        lemma_key_sum_fails(keys, k + 1);
    } else {
        assert(keys.take(k) =~= keys);
    }
}

/// Whether `signature`, aggregated by the holders of `keys` over `message`, verifies.
pub(crate) fn aggregate_verifies(signature: &Vec<u8>, message: &Vec<u8>, keys: &Vec<BlsPublicKey>) -> (r: bool)
    ensures
        r == bls_aggregate_verifies(signature@, message@, keys_bytes(keys@)),
{
    let ghost kb = keys_bytes(keys@);
    if keys.len() == 0 {
        return false;
    }
    let mut sum = keys[0].to_bytes();
    let mut i: usize = 1;
    proof {
        assert(kb.take(1) =~= seq![kb[0]]);
    }
    while i < keys.len()
        invariant
            1 <= i <= keys@.len(),
            kb == keys_bytes(keys@),
            key_sum(kb.take(i as int)) == Some(sum@),
        decreases keys@.len() - i,
    {
        let next = keys[i].to_bytes();
        proof {
            assert(kb.take(i + 1).drop_last() =~= kb.take(i as int));
            assert(kb.take(i + 1).last() == next@);
        }
        match add_key_bytes(&sum, &next) {
            None => {
                proof {
                    lemma_key_sum_fails(kb, i + 1);
                }
                return false;
            },
            Some(s) => {
                sum = s;
            },
        }
        i = i + 1;
    }
    proof {
        assert(kb.take(keys@.len() as int) =~= kb);
    }
    verifies(signature, message, &sum)
}

/// Whether `proof` proves possession of the secret of `key`.
pub(crate) fn possession_verifies(key: &BlsPublicKey, proof: &Vec<u8>) -> (r: bool)
    ensures
        r == bls_possession_verifies(key.spec_bytes(), proof@),
{
    let bytes = key.to_bytes();
    verifies(proof, &bytes, &bytes)
}

} // verus!

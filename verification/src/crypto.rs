//! The cryptographic primitives the library relies on, each behind a
//! trusted boundary: key derivation, authenticated encryption, Ed25519
//! public-key derivation, principal derivation, and per-link delegation
//! signature verification. Every result that is a pure function of its
//! arguments is given a name, and the contracts of the callers are stated
//! over those names.

use vstd::prelude::*;

verus! {

/// The 32-byte vault encryption key derived from a seed and a salt.
pub uninterp spec fn vault_key_of(seed: Seq<u8>, salt: Seq<u8>) -> Seq<u8>;

/// The 32-byte scoped seed derived from a seed and an optional salt.
pub uninterp spec fn scoped_seed_of(seed: Seq<u8>, salt: Option<Seq<u8>>) -> Seq<u8>;

/// The AES-256-GCM sealing of a plaintext under a key and nonce, with empty
/// associated data: the ciphertext followed by the 16-byte tag.
pub uninterp spec fn aead_seal(key: Seq<u8>, nonce: Seq<u8>, pt: Seq<u8>) -> Seq<u8>;

/// The public half of an Ed25519 key, from its 32 secret bytes.
pub uninterp spec fn ed25519_pubkey_of(secret: Seq<u8>) -> Seq<u8>;

/// The self-authenticating principal derived from a public key.
pub uninterp spec fn principal_of(pubkey: Seq<u8>) -> Seq<u8>;

/// Whether `sig` is a valid signature by the holder of `parent` over the
/// canonical delegation message for `(pubkey, expiration_ns)`. For
/// canister-signed links the answer may also depend on the time.
pub uninterp spec fn link_sig_ok(
    parent: Seq<u8>,
    pubkey: Seq<u8>,
    expiration_ns: u64,
    sig: Seq<u8>,
    now_ms: u64,
) -> bool;

/// Relies on ic_cose_types::cose::kdf::derive_a256gcm_key: an HKDF-SHA-256
/// derivation with a COSE context, whose 32-byte result depends on the seed
/// and salt alone.
#[verifier::external_body]
pub(crate) fn derive_vault_key(seed: &[u8; 32], salt: &[u8]) -> (r: [u8; 32])
    ensures
        r@ == vault_key_of(seed@, salt@),
{
    ic_cose_types::cose::kdf::derive_a256gcm_key(seed.as_slice(), Some(salt))
}

/// Relies on ic_cose_types::cose::kdf::hkdf256: an HKDF-SHA-256 expansion
/// with empty info, whose 32-byte result depends on the seed and salt
/// alone.
#[verifier::external_body]
pub(crate) fn derive_scoped_seed(seed: &[u8; 32], salt: Option<&Vec<u8>>) -> (r: [u8; 32])
    ensures
        r@ == scoped_seed_of(
            seed@,
            match salt {
                Some(s) => Some(s@),
                None => None,
            },
        ),
{
    ic_cose_types::cose::kdf::hkdf256(seed.as_slice(), salt.map(|s| s.as_slice()), &[])
}

/// Relies on ic_cose_types::cose::aes::aes256_gcm_encrypt: AES-256-GCM with
/// empty associated data; the result is the ciphertext with the 16-byte tag
/// appended, a function of key, nonce and plaintext alone. Succeeds for
/// every plaintext within the cipher's size bound.
#[verifier::external_body]
pub(crate) fn aead_encrypt(key: &[u8; 32], nonce: &[u8; 12], pt: &Vec<u8>) -> (r: Option<Vec<u8>>)
    ensures
        r matches Some(ct) ==> {
            &&& ct@ == aead_seal(key@, nonce@, pt@)
            &&& ct@.len() == pt@.len() + 16
        },
        pt@.len() <= 0xF_FFFF_FFE0 ==> r is Some,
{
    ic_cose_types::cose::aes::aes256_gcm_encrypt(key, nonce, &[], pt.as_slice()).ok()
}

/// Relies on ic_cose_types::cose::aes::aes256_gcm_decrypt: authenticated
/// decryption accepts exactly the outputs of sealing under the same key and
/// nonce, and returns the plaintext that was sealed.
#[verifier::external_body]
pub(crate) fn aead_decrypt(key: &[u8; 32], nonce: &[u8; 12], ct: &Vec<u8>) -> (r: Option<Vec<u8>>)
    ensures
        r matches Some(pt) ==> ct@ == aead_seal(key@, nonce@, pt@),
        r matches Some(pt) ==> forall|q: Seq<u8>|
            ct@ == aead_seal(key@, nonce@, q) ==> q == pt@,
        (exists|q: Seq<u8>| ct@ == aead_seal(key@, nonce@, q)) ==> r is Some,
{
    ic_cose_types::cose::aes::aes256_gcm_decrypt(key, nonce, &[], ct.as_slice()).ok()
}

/// Relies on ed25519_dalek::SigningKey::verifying_key: the public half of
/// an Ed25519 key, a function of the 32 secret bytes alone.
#[verifier::external_body]
pub(crate) fn ed25519_pubkey(secret: &[u8; 32]) -> (r: [u8; 32])
    ensures
        r@ == ed25519_pubkey_of(secret@),
{
    ed25519_dalek::SigningKey::from_bytes(secret).verifying_key().to_bytes()
}

/// Relies on candid::Principal::self_authenticating: the 29-byte
/// self-authenticating principal (the SHA-224 of the key followed by a tag
/// byte), a function of the public key alone.
#[verifier::external_body]
pub(crate) fn self_authenticating_principal(pubkey: &Vec<u8>) -> (r: Vec<u8>)
    ensures
        r@ == principal_of(pubkey@),
        r@.len() == 29,
{
    candid::Principal::self_authenticating(pubkey.as_slice()).as_slice().to_vec()
}

/// Relies on ic_auth_verifier::verify_delegation_chain, applied to one
/// link whose expiry lies in the future: with the crate's expiry and
/// chain-length checks unable to fire, the result is exactly the signature
/// verification of the link under the parent key.
#[verifier::external_body]
pub(crate) fn verify_link(
    parent: &Vec<u8>,
    pubkey: &Vec<u8>,
    expiration_ns: u64,
    sig: &Vec<u8>,
    now_ms: u64,
) -> (r: bool)
    requires
        now_ms < expiration_ns / 1_000_000,
    ensures
        r == link_sig_ok(parent@, pubkey@, expiration_ns, sig@, now_ms),
{
    let link = ic_auth_types::SignedDelegationCompact {
        delegation: ic_auth_types::DelegationCompact {
            pubkey: ic_auth_types::ByteBufB64(pubkey.clone()),
            expiration: expiration_ns,
            targets: None,
            permissions: None,
        },
        signature: ic_auth_types::ByteBufB64(sig.clone()),
    };
    ic_auth_verifier::verify_delegation_chain(parent, pubkey, &[link], now_ms, None).is_ok()
}

} // verus!

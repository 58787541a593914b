//! The key-derivation chain: the root seed yields the vault's encryption
//! key and scoped client-visible seeds, and the session secret yields the
//! DER-encoded session public key embedded in sign-in requests.

use vstd::prelude::*;

use crate::crypto::{
    derive_scoped_seed, derive_vault_key, ed25519_pubkey, ed25519_pubkey_of, scoped_seed_of,
    vault_key_of,
};
use crate::model::{AppState, SecretState};
use crate::utils::SensitiveData;

verus! {

/// The DER SubjectPublicKeyInfo wrapping of a raw 32-byte Ed25519 public
/// key: a fixed 12-byte header followed by the key.
pub open spec fn spec_der_ed25519(raw: Seq<u8>) -> Seq<u8> {
    seq![0x30u8, 0x2au8, 0x30u8, 0x05u8, 0x06u8, 0x03u8, 0x2bu8, 0x65u8, 0x70u8, 0x03u8, 0x21u8, 0x00u8]
        + raw
}

/// The DER-encoded public half of an Ed25519 session secret.
pub open spec fn spec_session_pubkey(secret: Seq<u8>) -> Seq<u8> {
    spec_der_ed25519(ed25519_pubkey_of(secret))
}

/// Wraps a raw Ed25519 public key in its DER form.
pub fn der_ed25519(raw: &[u8; 32]) -> (r: Vec<u8>)
    ensures
        r@ == spec_der_ed25519(raw@),
{
    let mut v: Vec<u8> = Vec::new();
    v.push(0x30);
    v.push(0x2a);
    v.push(0x30);
    v.push(0x05);
    v.push(0x06);
    v.push(0x03);
    v.push(0x2b);
    v.push(0x65);
    v.push(0x70);
    v.push(0x03);
    v.push(0x21);
    v.push(0x00);
    v.extend_from_slice(raw.as_slice());
    proof {
        assert(v@ =~= spec_der_ed25519(raw@));
    }
    v
}

impl SecretState {
    /// The DER-encoded public half of the current ephemeral session key.
    pub fn session_pubkey(&self) -> (r: Vec<u8>)
        ensures
            r@ == spec_session_pubkey(self@.session_secret),
    {
        let raw = ed25519_pubkey(&self.session_secret.0);
        der_ed25519(&raw)
    }
}

impl AppState {
    /// The vault encryption key: a deterministic derivation from the seed
    /// and an application salt, so the vault can be reopened across
    /// restarts without the key ever being persisted.
    pub fn derive_a256gcm_key(&self, salt: &[u8]) -> (r: [u8; 32])
        ensures
            r@ == vault_key_of(self@.seed, salt@),
    {
        derive_vault_key(&self.seed.0, salt)
    }

    /// A copy of the state whose seed is replaced by a scoped derivation,
    /// handed to less-trusted consumers so the root seed itself is never
    /// exposed.
    pub fn to_client_state(&self, salt: Option<&Vec<u8>>) -> (r: AppState)
        ensures
            r@.os_arch == self@.os_arch,
            r@.os_platform == self@.os_platform,
            r@.settings == self@.settings,
            r@.seed == scoped_seed_of(
                self@.seed,
                match salt {
                    Some(s) => Some(s@),
                    None => None,
                },
            ),
    {
        let seed = derive_scoped_seed(&self.seed.0, salt);
        AppState {
            os_arch: self.os_arch.clone(),
            os_platform: self.os_platform.clone(),
            settings: self.settings.clone(),
            seed: SensitiveData(seed),
        }
    }
}

} // verus!

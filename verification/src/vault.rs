//! The state vault: a persisted single-value store in two variants. The
//! plaintext cell holds the application state as its canonical encoding;
//! the cipher cell holds the secret state sealed with AES-256-GCM under a
//! derived key, as `nonce ‖ ciphertext ‖ tag`.
//!
//! The cells hold bytes, not files: the embedder reads and writes the
//! actual file and hands the bytes in and out, so a load that finds no
//! file passes `None` and receives the fresh bytes to persist.
//!
//! `load` accepts exactly the outputs of `save` (the round trip is part of
//! the contracts below), and a successful load pins the stored bytes down
//! completely: no two distinct states share a stored form, and a file that
//! fails authentication or decoding is a fatal error, never replaced with
//! defaults.

use vstd::prelude::*;

use crate::b64::lemma_utf8_len_bound;
use crate::cbor::{is_at, spec_head};
use crate::codec::{dec_app_state, enc_app_state, spec_enc_app_state};
use crate::crypto::{aead_decrypt, aead_encrypt, aead_seal};
use crate::model::{
    AppState, AppStateV, SecretState, SecretStateV, Settings, SettingsV,
};
use crate::secret::{dec_secret_state, enc_secret_state, spec_enc_secret_state};
use crate::utils::{rand_bytes, SensitiveData};
use crate::Error;

verus! {

/// The freshly constructed application state: empty platform facts and
/// settings, an all-zero seed (the composition root replaces it with a
/// random one before use).
pub open spec fn spec_default_app_state() -> AppStateV {
    AppStateV {
        os_arch: Seq::empty(),
        os_platform: Seq::empty(),
        settings: SettingsV { locale: Seq::empty(), theme: None, https_proxy: None },
        seed: Seq::new(32, |i: int| 0u8),
    }
}

/// The freshly constructed secret state: an all-zero session secret, no
/// auth record, no assistant configuration.
pub open spec fn spec_default_secret_state() -> SecretStateV {
    SecretStateV { session_secret: Seq::new(32, |i: int| 0u8), auth: None, assistant: None }
}

/// Builds the default application state.
pub fn default_app_state() -> (r: AppState)
    ensures
        r@ == spec_default_app_state(),
{
    let r = AppState {
        os_arch: String::new(),
        os_platform: String::new(),
        settings: Settings { locale: String::new(), theme: None, https_proxy: None },
        seed: SensitiveData([0u8; 32]),
    };
    proof {
        assert(r@.seed =~= Seq::new(32, |i: int| 0u8));
        assert(r@ =~= spec_default_app_state());
    }
    r
}

/// Builds the default secret state.
pub fn default_secret_state() -> (r: SecretState)
    ensures
        r@ == spec_default_secret_state(),
{
    let r = SecretState { session_secret: SensitiveData([0u8; 32]), auth: None, assistant: None };
    proof {
        assert(r@.session_secret =~= Seq::new(32, |i: int| 0u8));
        assert(r@ =~= spec_default_secret_state());
    }
    r
}

/// The plaintext vault cell, holding the application state.
pub struct PlainCell {
    value: AppState,
}

impl View for PlainCell {
    type V = AppStateV;

    closed spec fn view(&self) -> AppStateV {
        self.value@
    }
}

impl PlainCell {
    /// Loads a cell from the stored bytes, or constructs the default when
    /// no file existed yet. In the latter case the second component holds
    /// the bytes the embedder must persist immediately, so that the file
    /// exists after first run.
    ///
    /// A present file decodes successfully exactly when it is the
    /// canonical encoding of a state; anything else is a fatal
    /// configuration error, never silently replaced by defaults.
    #[verifier::spinoff_prover]
    #[verifier::rlimit(100)]
    pub fn load(stored: Option<&Vec<u8>>) -> (r: Result<(PlainCell, Option<Vec<u8>>), Error>)
        ensures
            stored is None ==> (r matches Ok((cell, init)) && cell@
                == spec_default_app_state() && (init matches Some(ib) && ib@
                == spec_enc_app_state(spec_default_app_state()))),
            stored matches Some(b) ==> {
                &&& (r matches Ok((cell, init)) ==> init is None && cell@.wf() && b@
                    == spec_enc_app_state(cell@))
                &&& (r matches Err(e) ==> e is Config)
                &&& forall|w: AppStateV|
                    w.wf() && b@ == #[trigger] spec_enc_app_state(w) ==> (r matches Ok(
                        (cell, init),
                    ) && cell@ == w)
            },
    {
        match stored {
            None => {
                let value = default_app_state();
                let mut init: Vec<u8> = Vec::new();
                enc_app_state(&mut init, &value);
                Ok((PlainCell { value }, Some(init)))
            },
            Some(b) => {
                match dec_app_state(b, 0) {
                    Some((value, end)) if end == b.len() => {
                        proof {
                            assert(b@.subrange(0, b@.len() as int) =~= b@);
                            assert forall|w: AppStateV|
                                w.wf() && b@ == #[trigger] spec_enc_app_state(w) implies value@
                                == w by {
                                assert(is_at(b@, 0, spec_enc_app_state(w)));
                            }
                        }
                        Ok((PlainCell { value }, None))
                    },
                    _ => {
                        proof {
                            assert forall|w: AppStateV|
                                w.wf() && b@ == #[trigger] spec_enc_app_state(w) implies false by {
                                assert(b@.subrange(0, b@.len() as int) =~= b@);
                                assert(is_at(b@, 0, spec_enc_app_state(w)));
                            }
                        }
                        Err(
                            Error::Config(
                                String::from_str("state file is not a valid encoded state"),
                            ),
                        )
                    },
                }
            },
        }
    }

    /// The bytes to persist: the canonical encoding of the current state.
    pub fn save(&self) -> (r: Vec<u8>)
        ensures
            r@ == spec_enc_app_state(self@),
    {
        let mut out: Vec<u8> = Vec::new();
        enc_app_state(&mut out, &self.value);
        out
    }

    /// Read access to the value. The embedder serialises access itself;
    /// within the library the cell is a plain owned value.
    pub fn with(&self) -> (r: &AppState)
        ensures
            r@ == self@,
    {
        &self.value
    }

    /// Write access to the value. Mutation is in memory only; it becomes
    /// durable when the embedder writes the bytes of the next `save`.
    pub fn with_mut(&mut self) -> (r: &mut AppState)
        ensures
            (*r)@ == old(self)@,
            final(self)@ == (*final(r))@,
    {
        &mut self.value
    }
}

/// The view of a cipher cell: its key and the state it holds.
pub struct CipherCellV {
    pub key: Seq<u8>,
    pub state: SecretStateV,
}

/// True when `b` is a well-formed sealed state file for `w` under `key`:
/// a 12-byte nonce followed by the AES-256-GCM sealing of the state's
/// canonical encoding under that nonce.
pub open spec fn is_sealed_state(key: Seq<u8>, b: Seq<u8>, w: SecretStateV) -> bool {
    &&& b.len() >= 28
    &&& b.subrange(12, b.len() as int) == aead_seal(
        key,
        b.subrange(0, 12),
        spec_enc_secret_state(w),
    )
}

/// The canonical encoding of the default secret state is tiny, far below
/// the cipher's size bound, so sealing it always succeeds.
proof fn lemma_default_enc_small()
    ensures
        crate::secret::spec_enc_secret_state(spec_default_secret_state()).len() <= 1024,
{
    reveal(crate::secret::spec_enc_secret_state);
    reveal_strlit("session_secret");
    reveal_strlit("auth");
    reveal_strlit("assistant");
    let w = spec_default_secret_state();
    assert(spec_head(5, 3).len() <= 9);
    assert(spec_head(2, 32).len() <= 9);
    lemma_utf8_len_bound("session_secret"@);
    lemma_utf8_len_bound("auth"@);
    lemma_utf8_len_bound("assistant"@);
    assert("session_secret"@.len() == 14);
    assert("auth"@.len() == 4);
    assert("assistant"@.len() == 9);
    assert(spec_head(3, vstd::utf8::encode_utf8("session_secret"@).len() as u64).len() <= 9);
    assert(spec_head(3, vstd::utf8::encode_utf8("auth"@).len() as u64).len() <= 9);
    assert(spec_head(3, vstd::utf8::encode_utf8("assistant"@).len() as u64).len() <= 9);
}

/// The encrypted vault cell, holding the secret state and the vault key.
pub struct CipherCell {
    key: [u8; 32],
    value: SecretState,
}

impl View for CipherCell {
    type V = CipherCellV;

    closed spec fn view(&self) -> CipherCellV {
        CipherCellV { key: self.key@, state: self.value@ }
    }
}

impl CipherCell {
    /// Loads a cell from the stored bytes under `key`, or constructs the
    /// default when no file existed yet; in that case the second component
    /// holds the freshly sealed bytes to persist immediately.
    ///
    /// A present file shorter than 28 bytes, or failing authenticated
    /// decryption, is a fatal crypto error; one that decrypts but does not
    /// hold a canonical state encoding is a fatal configuration error.
    /// Every output of `save` under the same key loads back to the saved
    /// state.
    /// Decodes a decrypted state file body; it must hold exactly one
    /// canonical state encoding.
    #[verifier::spinoff_prover]
    #[verifier::rlimit(100)]
    fn decode_full(pt: &Vec<u8>) -> (r: Result<SecretState, Error>)
        ensures
            r matches Ok(v) ==> v@.wf() && pt@ == spec_enc_secret_state(v@),
            r matches Err(e) ==> e is Config,
            forall|w: SecretStateV|
                w.wf() && pt@ == #[trigger] spec_enc_secret_state(w) ==> (r matches Ok(v) && v@
                    == w),
    {
        match dec_secret_state(pt, 0) {
            Some((value, end)) if end == pt.len() => {
                proof {
                    assert(pt@.subrange(0, pt@.len() as int) =~= pt@);
                    assert(value@.session_secret.len() == 32);
                    match &value.auth {
                        Some(a) => {
                            assert(vstd::std_specs::vec::spec_vec_len(&a.delegations)
                                == a.delegations@.len());
                            assert(value@.auth matches Some(av) && av.delegations
                                == crate::model::links_view(a.delegations@));
                        },
                        None => {},
                    }
                    assert(value@.wf());
                    assert forall|w: SecretStateV|
                        w.wf() && pt@ == #[trigger] spec_enc_secret_state(w) implies value@
                        == w by {
                        assert(is_at(pt@, 0, spec_enc_secret_state(w)));
                    }
                }
                Ok(value)
            },
            _ => {
                proof {
                    assert forall|w: SecretStateV|
                        w.wf() && pt@ == #[trigger] spec_enc_secret_state(w) implies false by {
                        assert(pt@.subrange(0, pt@.len() as int) =~= pt@);
                        assert(is_at(pt@, 0, spec_enc_secret_state(w)));
                    }
                }
                Err(Error::Config(String::from_str("decrypted state is not a valid encoded state")))
            },
        }
    }

    /// The present-file half of `load`: authenticate, decrypt and decode.
    #[verifier::spinoff_prover]
    #[verifier::rlimit(100)]
    fn load_present(key: [u8; 32], b: &Vec<u8>) -> (r: Result<CipherCell, Error>)
        ensures
            r matches Ok(cell) ==> cell@.key == key@ && cell@.state.wf() && is_sealed_state(
                key@,
                b@,
                cell@.state,
            ),
            r matches Err(e) ==> e.is_fatal(),
            b@.len() < 28 ==> (r matches Err(e) && e is Crypto),
            forall|w: SecretStateV|
                w.wf() && #[trigger] is_sealed_state(key@, b@, w) ==> (r matches Ok(cell)
                    && cell@.state == w),
    {
        if b.len() < 28 {
            proof {
                assert forall|w: SecretStateV|
                    w.wf() && #[trigger] is_sealed_state(key@, b@, w) implies false by {}
            }
            return Err(Error::Crypto(String::from_str("state file is too short")));
        }
        let mut nonce = [0u8; 12];
        let mut i: usize = 0;
        while i < 12
            invariant
                i <= 12,
                b@.len() >= 28,
                nonce@.len() == 12,
                forall|j: int| 0 <= j < i ==> nonce@[j] == b@[j],
            decreases 12 - i,
        {
            nonce[i] = b[i];
            i += 1;
        }
        let ct = vstd::slice::slice_to_vec(vstd::slice::slice_subrange(b.as_slice(), 12, b.len()));
        proof {
            assert(nonce@ =~= b@.subrange(0, 12));
            assert(ct@ =~= b@.subrange(12, b@.len() as int));
        }
        match aead_decrypt(&key, &nonce, &ct) {
            Some(pt) => {
                match Self::decode_full(&pt) {
                    Ok(value) => {
                        proof {
                            assert(is_sealed_state(key@, b@, value@));
                            assert forall|w: SecretStateV|
                                w.wf() && #[trigger] is_sealed_state(key@, b@, w) implies value@
                                == w by {
                                assert(ct@ == aead_seal(key@, nonce@, spec_enc_secret_state(w)));
                                assert(spec_enc_secret_state(w) == pt@);
                            }
                        }
                        Ok(CipherCell { key, value })
                    },
                    Err(e) => {
                        proof {
                            assert forall|w: SecretStateV|
                                w.wf() && #[trigger] is_sealed_state(key@, b@, w) implies false by {
                                assert(ct@ == aead_seal(key@, nonce@, spec_enc_secret_state(w)));
                                assert(spec_enc_secret_state(w) == pt@);
                            }
                        }
                        Err(e)
                    },
                }
            },
            None => {
                proof {
                    assert forall|w: SecretStateV|
                        w.wf() && #[trigger] is_sealed_state(key@, b@, w) implies false by {}
                }
                Err(Error::Crypto(String::from_str("state file failed authenticated decryption")))
            },
        }
    }

    pub fn load(key: [u8; 32], stored: Option<&Vec<u8>>) -> (r: Result<
        (CipherCell, Option<Vec<u8>>),
        Error,
    >)
        ensures
            stored is None ==> {
                &&& r is Ok
                &&& (r matches Ok((cell, init)) ==> cell@.key == key@ && cell@.state
                    == spec_default_secret_state() && (init matches Some(ib) && is_sealed_state(
                    key@,
                    ib@,
                    cell@.state,
                )))
            },
            stored matches Some(b) ==> {
                &&& (r matches Ok((cell, init)) ==> init is None && cell@.key == key@
                    && cell@.state.wf() && is_sealed_state(key@, b@, cell@.state))
                &&& (r matches Err(e) ==> e.is_fatal())
                &&& (b@.len() < 28 ==> (r matches Err(e) && e is Crypto))
                &&& forall|w: SecretStateV|
                    w.wf() && #[trigger] is_sealed_state(key@, b@, w) ==> (r matches Ok(
                        (cell, init),
                    ) && cell@.state == w)
            },
    {
        match stored {
            None => {
                let cell = CipherCell { key, value: default_secret_state() };
                proof {
                    lemma_default_enc_small();
                }
                match cell.save() {
                    Ok(init) => Ok((cell, Some(init))),
                    Err(e) => Err(e),
                }
            },
            Some(b) => {
                match Self::load_present(key, b) {
                    Ok(cell) => Ok((cell, None)),
                    Err(e) => Err(e),
                }
            },
        }
    }

    /// The bytes to persist: a fresh random nonce followed by the sealing
    /// of the current state's canonical encoding. Succeeds for every state
    /// whose encoding is within the cipher's size bound.
    pub fn save(&self) -> (r: Result<Vec<u8>, Error>)
        ensures
            r matches Ok(bytes) ==> is_sealed_state(self@.key, bytes@, self@.state),
            spec_enc_secret_state(self@.state).len() <= 0xF_FFFF_FFE0 ==> r is Ok,
            r matches Err(e) ==> e is Crypto,
    {
        let nonce = rand_bytes::<12>();
        let mut body: Vec<u8> = Vec::new();
        enc_secret_state(&mut body, &self.value);
        match aead_encrypt(&self.key, &nonce, &body) {
            Some(ct) => {
                let mut out: Vec<u8> = Vec::new();
                out.extend_from_slice(nonce.as_slice());
                out.extend_from_slice(ct.as_slice());
                proof {
                    assert(out@.subrange(0, 12) =~= nonce@);
                    assert(out@.subrange(12, out@.len() as int) =~= ct@);
                }
                Ok(out)
            },
            None => Err(Error::Crypto(String::from_str("state could not be sealed"))),
        }
    }

    /// Read access to the value.
    pub fn with(&self) -> (r: &SecretState)
        ensures
            r@ == self@.state,
    {
        &self.value
    }

    /// Write access to the value. Mutation is in memory only; it becomes
    /// durable when the embedder writes the bytes of the next `save`.
    pub fn with_mut(&mut self) -> (r: &mut SecretState)
        ensures
            (*r)@ == old(self)@.state,
            final(self)@.state == (*final(r))@,
            final(self)@.key == old(self)@.key,
    {
        &mut self.value
    }
}

} // verus!

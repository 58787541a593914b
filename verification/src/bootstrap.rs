//! First-run and startup fixups of the persisted state, performed by the
//! composition root right after the vaults are loaded: fill in platform
//! facts, mint missing secrets, and pick a locale.

use vstd::prelude::*;

use crate::model::{AppState, AssistantConfig, SecretState};
use crate::utils::{rand_bytes, SensitiveData};

verus! {

/// An all-zero byte sequence: the marker of a secret not yet minted.
pub open spec fn all_zero(b: Seq<u8>) -> bool {
    forall|i: int| 0 <= i < b.len() ==> (#[trigger] b[i]) == 0
}

/// True when the array holds only zeros.
fn is_zero32(b: &[u8; 32]) -> (r: bool)
    ensures
        r == all_zero(b@),
{
    let mut i: usize = 0;
    while i < 32
        invariant
            i <= 32,
            forall|j: int| 0 <= j < i ==> (#[trigger] b@[j]) == 0,
        decreases 32 - i,
    {
        if b[i] != 0 {
            return false;
        }
        i += 1;
    }
    true
}

impl AppState {
    /// Startup fixup: record the platform facts, mint the root seed if it
    /// has never been set, and pick a locale from the platform hint when
    /// none is chosen yet (a hint starting `zh` selects Chinese, anything
    /// else English). Settings the user already made are kept.
    pub fn initialize(&mut self, os_arch: String, os_platform: String, locale_hint: Option<String>)
        ensures
            final(self)@.os_arch == os_arch@,
            final(self)@.os_platform == os_platform@,
            final(self)@.settings.theme == old(self)@.settings.theme,
            final(self)@.settings.https_proxy == old(self)@.settings.https_proxy,
            !all_zero(old(self)@.seed) ==> final(self)@.seed == old(self)@.seed,
            old(self)@.settings.locale.len() > 0 ==> final(self)@.settings.locale == old(
                self,
            )@.settings.locale,
            old(self)@.settings.locale.len() == 0 ==> final(self)@.settings.locale == (
            match locale_hint {
                Some(h) => if h@.len() >= 2 && h@[0] == 'z' && h@[1] == 'h' {
                    "zh"@
                } else {
                    "en"@
                },
                None => "en"@,
            }),
    {
        self.os_arch = os_arch;
        self.os_platform = os_platform;
        if is_zero32(&self.seed.0) {
            self.seed = SensitiveData(rand_bytes::<32>());
        }
        if self.settings.locale.as_str().unicode_len() == 0 {
            let zh = match &locale_hint {
                Some(h) => {
                    let hs = h.as_str();
                    if hs.unicode_len() >= 2 {
                        hs.get_char(0) == 'z' && hs.get_char(1) == 'h'
                    } else {
                        false
                    }
                },
                None => false,
            };
            self.settings.locale = if zh {
                String::from_str("zh")
            } else {
                String::from_str("en")
            };
        }
    }
}

impl SecretState {
    /// Startup fixup: mint the ephemeral session secret if it has never
    /// been set, and create the assistant configuration (with a fresh root
    /// secret and the default provider choice) if none exists. The auth
    /// record is never touched here.
    pub fn initialize(&mut self)
        ensures
            final(self)@.auth == old(self)@.auth,
            !all_zero(old(self)@.session_secret) ==> final(self)@.session_secret == old(
                self,
            )@.session_secret,
            old(self)@.assistant is Some ==> final(self)@.assistant == old(self)@.assistant,
            old(self)@.assistant is None ==> (final(self)@.assistant matches Some(cfg) && {
                &&& cfg.preferred_provider == "gemini"@
                &&& cfg.gemini is None
                &&& cfg.deepseek is None
                &&& cfg.xai is None
                &&& cfg.openai is None
            }),
    {
        if is_zero32(&self.session_secret.0) {
            self.session_secret = SensitiveData(rand_bytes::<32>());
        }
        if self.assistant.is_none() {
            self.assistant = Some(
                AssistantConfig {
                    root_secret: SensitiveData(rand_bytes::<48>()),
                    preferred_provider: String::from_str("gemini"),
                    gemini: None,
                    deepseek: None,
                    xai: None,
                    openai: None,
                },
            );
        }
    }
}

} // verus!

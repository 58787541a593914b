//! The persisted state of the application: the plaintext side (platform
//! facts, settings, the root seed) and the encrypted side (the session
//! secret, the auth record of the last successful sign-in, the assistant
//! configuration).
//!
//! Each type has a mathematical view over sequences, which the binary codec
//! and every contract in the library speak about.

use vstd::prelude::*;

use crate::utils::SensitiveData;

verus! {

/// The colour scheme chosen by the user.
#[derive(Clone, Copy, Debug, PartialEq, Eq, Structural)]
pub enum Theme {
    Light,
    Dark,
}

/// User-visible settings kept in the plaintext state file.
#[derive(Debug, PartialEq, Eq)]
pub struct Settings {
    pub locale: String,
    pub theme: Option<Theme>,
    pub https_proxy: Option<String>,
}

impl Clone for Settings {
    /// An exact copy, field by field.
    fn clone(&self) -> (res: Self)
        ensures
            res@ == self@,
    {
        let res = Settings {
            locale: self.locale.clone(),
            theme: match self.theme {
                Some(t) => Some(t),
                None => None,
            },
            https_proxy: match &self.https_proxy {
                Some(p) => Some(p.clone()),
                None => None,
            },
        };
        proof {
            assert(res@ =~= self@);
        }
        res
    }
}

/// The view of `Settings`.
pub struct SettingsV {
    pub locale: Seq<char>,
    pub theme: Option<Theme>,
    pub https_proxy: Option<Seq<char>>,
}

impl View for Settings {
    type V = SettingsV;

    open spec fn view(&self) -> SettingsV {
        SettingsV {
            locale: self.locale@,
            theme: self.theme,
            https_proxy: match self.https_proxy {
                Some(p) => Some(p@),
                None => None,
            },
        }
    }
}

/// The plaintext state file: platform facts, settings, and the root seed
/// from which every key of the application is derived.
#[derive(Clone)]
pub struct AppState {
    pub os_arch: String,
    pub os_platform: String,
    pub settings: Settings,
    pub seed: SensitiveData<[u8; 32]>,
}

/// The view of `AppState`.
pub struct AppStateV {
    pub os_arch: Seq<char>,
    pub os_platform: Seq<char>,
    pub settings: SettingsV,
    pub seed: Seq<u8>,
}

impl AppStateV {
    /// Structural facts every real `AppState` satisfies.
    pub open spec fn wf(self) -> bool {
        self.seed.len() == 32
    }
}

impl View for AppState {
    type V = AppStateV;

    open spec fn view(&self) -> AppStateV {
        AppStateV {
            os_arch: self.os_arch@,
            os_platform: self.os_platform@,
            settings: self.settings@,
            seed: self.seed.0@,
        }
    }
}

/// One link of a delegation chain: a public key, the nanosecond timestamp
/// after which the link is no longer valid, and the signature by the link's
/// parent over the canonical form of the first two.
///
/// The optional per-link target and permission restrictions some providers
/// can attach are not part of this model: a payload carrying them does not
/// decode, and such a sign-in is reported as a protocol error rather than
/// silently accepted with the restriction dropped.
#[derive(Clone, Debug, PartialEq, Eq)]
pub struct SignedDelegation {
    pub pubkey: Vec<u8>,
    pub expiration: u64,
    pub signature: Vec<u8>,
}

/// The view of `SignedDelegation`.
pub struct SignedDelegationV {
    pub pubkey: Seq<u8>,
    pub expiration: u64,
    pub signature: Seq<u8>,
}

impl View for SignedDelegation {
    type V = SignedDelegationV;

    open spec fn view(&self) -> SignedDelegationV {
        SignedDelegationV {
            pubkey: self.pubkey@,
            expiration: self.expiration,
            signature: self.signature@,
        }
    }
}

/// The views of a chain of links, in order.
pub open spec fn links_view(links: Seq<SignedDelegation>) -> Seq<SignedDelegationV> {
    links.map_values(|l: SignedDelegation| l@)
}

/// The durable artifact of a successful sign-in: the user's root public
/// key, the chain delegating to the session key, and how and where the user
/// authenticated.
#[derive(Clone, Debug, PartialEq, Eq)]
pub struct InternetIdentityAuth {
    pub user_pubkey: Vec<u8>,
    pub delegations: Vec<SignedDelegation>,
    pub authn_method: String,
    pub origin: String,
}

/// The view of `InternetIdentityAuth`.
pub struct InternetIdentityAuthV {
    pub user_pubkey: Seq<u8>,
    pub delegations: Seq<SignedDelegationV>,
    pub authn_method: Seq<char>,
    pub origin: Seq<char>,
}

impl InternetIdentityAuthV {
    /// Structural facts every real `InternetIdentityAuth` satisfies.
    pub open spec fn wf(self) -> bool {
        self.delegations.len() <= u64::MAX
    }
}

impl View for InternetIdentityAuth {
    type V = InternetIdentityAuthV;

    open spec fn view(&self) -> InternetIdentityAuthV {
        InternetIdentityAuthV {
            user_pubkey: self.user_pubkey@,
            delegations: links_view(self.delegations@),
            authn_method: self.authn_method@,
            origin: self.origin@,
        }
    }
}

/// Connection settings of one model provider.
#[derive(Debug, PartialEq, Eq)]
pub struct ModelProvider {
    pub api_key: String,
    pub api_base: Option<String>,
    pub model: String,
}

impl Clone for ModelProvider {
    /// An exact copy, field by field.
    fn clone(&self) -> (res: Self)
        ensures
            res@ == self@,
    {
        let res = ModelProvider {
            api_key: self.api_key.clone(),
            api_base: match &self.api_base {
                Some(b) => Some(b.clone()),
                None => None,
            },
            model: self.model.clone(),
        };
        proof {
            assert(res@ =~= self@);
        }
        res
    }
}

/// The view of `ModelProvider`.
pub struct ModelProviderV {
    pub api_key: Seq<char>,
    pub api_base: Option<Seq<char>>,
    pub model: Seq<char>,
}

impl View for ModelProvider {
    type V = ModelProviderV;

    open spec fn view(&self) -> ModelProviderV {
        ModelProviderV {
            api_key: self.api_key@,
            api_base: match self.api_base {
                Some(b) => Some(b@),
                None => None,
            },
            model: self.model@,
        }
    }
}

/// Configuration of the assistant backend: its root secret and the model
/// providers the user has set up.
#[derive(Clone)]
pub struct AssistantConfig {
    pub root_secret: SensitiveData<[u8; 48]>,
    pub preferred_provider: String,
    pub gemini: Option<ModelProvider>,
    pub deepseek: Option<ModelProvider>,
    pub xai: Option<ModelProvider>,
    pub openai: Option<ModelProvider>,
}

/// The view of `AssistantConfig`.
pub struct AssistantConfigV {
    pub root_secret: Seq<u8>,
    pub preferred_provider: Seq<char>,
    pub gemini: Option<ModelProviderV>,
    pub deepseek: Option<ModelProviderV>,
    pub xai: Option<ModelProviderV>,
    pub openai: Option<ModelProviderV>,
}

/// The view of an optional provider.
pub open spec fn provider_view(p: Option<ModelProvider>) -> Option<ModelProviderV> {
    match p {
        Some(v) => Some(v@),
        None => None,
    }
}

impl AssistantConfigV {
    /// Structural facts every real `AssistantConfig` satisfies.
    pub open spec fn wf(self) -> bool {
        self.root_secret.len() == 48
    }
}

impl View for AssistantConfig {
    type V = AssistantConfigV;

    open spec fn view(&self) -> AssistantConfigV {
        AssistantConfigV {
            root_secret: self.root_secret.0@,
            preferred_provider: self.preferred_provider@,
            gemini: provider_view(self.gemini),
            deepseek: provider_view(self.deepseek),
            xai: provider_view(self.xai),
            openai: provider_view(self.openai),
        }
    }
}

/// The encrypted state file: the private half of the ephemeral session key,
/// the auth record of the current sign-in if any, and the assistant
/// configuration.
#[derive(Clone)]
pub struct SecretState {
    pub session_secret: SensitiveData<[u8; 32]>,
    pub auth: Option<InternetIdentityAuth>,
    pub assistant: Option<AssistantConfig>,
}

/// The view of `SecretState`.
pub struct SecretStateV {
    pub session_secret: Seq<u8>,
    pub auth: Option<InternetIdentityAuthV>,
    pub assistant: Option<AssistantConfigV>,
}

impl SecretStateV {
    /// Structural facts every real `SecretState` satisfies.
    pub open spec fn wf(self) -> bool {
        &&& self.session_secret.len() == 32
        &&& match self.auth {
            Some(a) => a.wf(),
            None => true,
        }
        &&& match self.assistant {
            Some(a) => a.wf(),
            None => true,
        }
    }
}

/// The view of an optional auth record.
pub open spec fn opt_auth_view(o: Option<InternetIdentityAuth>) -> Option<InternetIdentityAuthV> {
    match o {
        Some(a) => Some(a@),
        None => None,
    }
}

/// The view of an optional assistant configuration.
pub open spec fn opt_assistant_view(o: Option<AssistantConfig>) -> Option<AssistantConfigV> {
    match o {
        Some(a) => Some(a@),
        None => None,
    }
}

impl View for SecretState {
    type V = SecretStateV;

    open spec fn view(&self) -> SecretStateV {
        SecretStateV {
            session_secret: self.session_secret.0@,
            auth: opt_auth_view(self.auth),
            assistant: opt_assistant_view(self.assistant),
        }
    }
}

} // verus!

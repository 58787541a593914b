//! The fixed enumeration of settings the UI may read and write, and the
//! dispatch that applies one change at a time. Unknown keys are rejected,
//! never silently accepted; a change that should restart the backend
//! session says so in its outcome, and the caller persists and notifies
//! only when something actually changed.

use vstd::prelude::*;

use crate::model::{AppState, AssistantConfig, ModelProvider, ModelProviderV, SecretState,
    Settings, Theme};
use crate::Error;

verus! {

/// A plain settings value handed in by the UI layer: a string, or nothing.
pub enum SettingValue {
    Text(String),
    Absent,
}

/// What a successful settings change asks of the caller.
pub struct SettingOutcome {
    /// Whether anything changed (persist and notify when true).
    pub updated: bool,
    /// Whether the backend session should be reconnected.
    pub propose_reconnect: bool,
}

/// The current settings snapshot.
pub fn get_settings(state: &AppState) -> (r: Settings)
    ensures
        r@ == state@.settings,
{
    state.settings.clone()
}

/// Applies one settings change. `locale` and `https_proxy` need a string
/// value; `theme` maps `light`/`dark` to a theme and anything else to the
/// platform default; any other key is unknown.
pub fn set_setting(state: &mut AppState, key: &str, value: &SettingValue) -> (r: Result<
    SettingOutcome,
    Error,
>)
    ensures
        r matches Ok(o) ==> {
            &&& o.updated
            &&& final(state)@.os_arch == old(state)@.os_arch
            &&& final(state)@.os_platform == old(state)@.os_platform
            &&& final(state)@.seed == old(state)@.seed
        },
        r matches Err(e) ==> {
            &&& final(state)@ == old(state)@
            &&& (e is UnknownKey || e is Protocol)
        },
        key@ == "locale"@ ==> match value {
            SettingValue::Text(v) => (r matches Ok(o) && !o.propose_reconnect && final(state)@.settings.locale == v@ && final(state)@.settings.theme == old(state)@.settings.theme && final(state)@.settings.https_proxy == old(state)@.settings.https_proxy),
            SettingValue::Absent => (r matches Err(e) && e is Protocol),
        },
        key@ == "theme"@ ==> (r matches Ok(o) && !o.propose_reconnect && final(state)@.settings.theme == (match value {
            SettingValue::Text(v) => if v@ == "light"@ {
                Some(Theme::Light)
            } else if v@ == "dark"@ {
                Some(Theme::Dark)
            } else {
                None
            },
            SettingValue::Absent => None,
        }) && final(state)@.settings.locale == old(state)@.settings.locale && final(state)@.settings.https_proxy == old(state)@.settings.https_proxy),
        key@ == "https_proxy"@ ==> match value {
            SettingValue::Text(v) => (r matches Ok(o) && o.propose_reconnect && final(state)@.settings.https_proxy == (if v@.len() == 0 {
                None
            } else {
                Some(v@)
            }) && final(state)@.settings.locale == old(state)@.settings.locale && final(state)@.settings.theme == old(state)@.settings.theme),
            SettingValue::Absent => (r matches Err(e) && e is Protocol),
        },
        key@ != "locale"@ && key@ != "theme"@ && key@ != "https_proxy"@ ==> (r matches Err(e)
            && e is UnknownKey),
{
    proof {
        reveal_strlit("locale");
        reveal_strlit("theme");
        reveal_strlit("https_proxy");
        reveal_strlit("light");
        reveal_strlit("dark");
        assert("locale"@.len() == 6);
        assert("theme"@.len() == 5);
        assert("https_proxy"@.len() == 11);
        assert("locale"@ != "theme"@ && "locale"@ != "https_proxy"@ && "theme"@
            != "https_proxy"@);
    }
    if crate::codec::str_eq(key, "locale") {
        match value {
            SettingValue::Text(v) => {
                state.settings.locale = v.clone();
                Ok(SettingOutcome { updated: true, propose_reconnect: false })
            },
            SettingValue::Absent => Err(
                Error::Protocol(String::from_str("locale needs a string value")),
            ),
        }
    } else if crate::codec::str_eq(key, "theme") {
        let theme = match value {
            SettingValue::Text(v) => {
                if crate::codec::str_eq(v.as_str(), "light") {
                    Some(Theme::Light)
                } else if crate::codec::str_eq(v.as_str(), "dark") {
                    Some(Theme::Dark)
                } else {
                    None
                }
            },
            SettingValue::Absent => None,
        };
        state.settings.theme = theme;
        Ok(SettingOutcome { updated: true, propose_reconnect: false })
    } else if crate::codec::str_eq(key, "https_proxy") {
        match value {
            SettingValue::Text(v) => {
                state.settings.https_proxy = if v.as_str().unicode_len() == 0 {
                    None
                } else {
                    Some(v.clone())
                };
                Ok(SettingOutcome { updated: true, propose_reconnect: true })
            },
            SettingValue::Absent => Err(
                Error::Protocol(String::from_str("https_proxy needs a string value")),
            ),
        }
    } else {
        Err(Error::UnknownKey(String::from_str("unknown setting key: ").concat(key)))
    }
}

impl AssistantConfig {
    /// The provider configuration the preferred name selects — gemini,
    /// deepseek, xai or openai — or nothing when the name is unknown or
    /// its slot is unconfigured; the backend session then runs degraded
    /// instead of failing.
    pub fn get_provider(&self) -> (r: Option<&ModelProvider>)
        ensures
            self@.preferred_provider == "gemini"@ ==> (match r {
                Some(p) => Some(p@),
                None => None::<ModelProviderV>,
            }) == self@.gemini,
            self@.preferred_provider == "deepseek"@ ==> (match r {
                Some(p) => Some(p@),
                None => None::<ModelProviderV>,
            }) == self@.deepseek,
            self@.preferred_provider == "xai"@ ==> (match r {
                Some(p) => Some(p@),
                None => None::<ModelProviderV>,
            }) == self@.xai,
            self@.preferred_provider == "openai"@ ==> (match r {
                Some(p) => Some(p@),
                None => None::<ModelProviderV>,
            }) == self@.openai,
            self@.preferred_provider != "gemini"@ && self@.preferred_provider != "deepseek"@
                && self@.preferred_provider != "xai"@ && self@.preferred_provider != "openai"@
                ==> r is None,
    {
        proof {
            reveal_strlit("gemini");
            reveal_strlit("deepseek");
            reveal_strlit("xai");
            reveal_strlit("openai");
            assert("gemini"@.len() == 6);
            assert("deepseek"@.len() == 8);
            assert("xai"@.len() == 3);
            assert("openai"@.len() == 6);
            assert("gemini"@[0] == 'g');
            assert("openai"@[0] == 'o');
            assert("gemini"@ != "openai"@);
        }
        let name = self.preferred_provider.as_str();
        if crate::codec::str_eq(name, "gemini") {
            match &self.gemini {
                Some(p) => Some(p),
                None => None,
            }
        } else if crate::codec::str_eq(name, "deepseek") {
            match &self.deepseek {
                Some(p) => Some(p),
                None => None,
            }
        } else if crate::codec::str_eq(name, "xai") {
            match &self.xai {
                Some(p) => Some(p),
                None => None,
            }
        } else if crate::codec::str_eq(name, "openai") {
            match &self.openai {
                Some(p) => Some(p),
                None => None,
            }
        } else {
            None
        }
    }
}

/// A secret-settings value: a provider name, a provider configuration, or
/// nothing configured.
pub enum SecretSettingValue {
    Text(String),
    Provider(ModelProvider),
    Null,
}

/// Reads one secret setting: the preferred provider's name or one
/// provider's configuration, `Null` while the assistant is not configured.
pub fn get_secret_setting(state: &SecretState, key: &str) -> (r: Result<SecretSettingValue, Error>)
    ensures
        key@ == "preferred_provider"@ ==> match state@.assistant {
            Some(cfg) => (r matches Ok(v) && v matches SecretSettingValue::Text(t) && t@
                == cfg.preferred_provider),
            None => (r matches Ok(v) && v is Null),
        },
        key@ == "gemini"@ ==> r_is_provider(r, state@.assistant, 0),
        key@ == "openai"@ ==> r_is_provider(r, state@.assistant, 1),
        key@ == "deepseek"@ ==> r_is_provider(r, state@.assistant, 2),
        key@ != "preferred_provider"@ && key@ != "gemini"@ && key@ != "openai"@ && key@
            != "deepseek"@ ==> (r matches Err(e) && e is UnknownKey),
{
    proof {
        reveal_strlit("preferred_provider");
        reveal_strlit("gemini");
        reveal_strlit("openai");
        reveal_strlit("deepseek");
        assert("preferred_provider"@.len() == 18);
        assert("gemini"@.len() == 6);
        assert("openai"@.len() == 6);
        assert("deepseek"@.len() == 8);
        assert("gemini"@[0] == 'g');
        assert("openai"@[0] == 'o');
        assert("gemini"@ != "openai"@);
        assert("preferred_provider"@ != "gemini"@ && "preferred_provider"@ != "openai"@
            && "preferred_provider"@ != "deepseek"@ && "gemini"@ != "deepseek"@ && "openai"@
            != "deepseek"@);
    }
    if crate::codec::str_eq(key, "preferred_provider") {
        match &state.assistant {
            Some(cfg) => Ok(SecretSettingValue::Text(cfg.preferred_provider.clone())),
            None => Ok(SecretSettingValue::Null),
        }
    } else if crate::codec::str_eq(key, "gemini") {
        match &state.assistant {
            Some(cfg) => match &cfg.gemini {
                Some(p) => Ok(SecretSettingValue::Provider(p.clone())),
                None => Ok(SecretSettingValue::Null),
            },
            None => Ok(SecretSettingValue::Null),
        }
    } else if crate::codec::str_eq(key, "openai") {
        match &state.assistant {
            Some(cfg) => match &cfg.openai {
                Some(p) => Ok(SecretSettingValue::Provider(p.clone())),
                None => Ok(SecretSettingValue::Null),
            },
            None => Ok(SecretSettingValue::Null),
        }
    } else if crate::codec::str_eq(key, "deepseek") {
        match &state.assistant {
            Some(cfg) => match &cfg.deepseek {
                Some(p) => Ok(SecretSettingValue::Provider(p.clone())),
                None => Ok(SecretSettingValue::Null),
            },
            None => Ok(SecretSettingValue::Null),
        }
    } else {
        Err(Error::UnknownKey(String::from_str("unknown secret setting key: ").concat(key)))
    }
}

/// What reading one provider slot must return: the configured provider, or
/// `Null` when the slot or the whole assistant is unconfigured. The slot
/// index selects gemini, openai or deepseek.
pub open spec fn r_is_provider(
    r: Result<SecretSettingValue, Error>,
    assistant: Option<crate::model::AssistantConfigV>,
    slot: int,
) -> bool {
    match assistant {
        Some(cfg) => {
            let field = if slot == 0 {
                cfg.gemini
            } else if slot == 1 {
                cfg.openai
            } else {
                cfg.deepseek
            };
            match field {
                Some(p) => (r matches Ok(v) && v matches SecretSettingValue::Provider(q) && q@
                    == p),
                None => (r matches Ok(v) && v is Null),
            }
        },
        None => (r matches Ok(v) && v is Null),
    }
}

/// Applies one secret-settings change. A change is applied only while the
/// assistant is configured; with no assistant the call reports `false` and
/// changes nothing. A provider slot needs a provider value; any other key
/// is unknown.
pub fn set_secret_setting(state: &mut SecretState, key: &str, value: &SecretSettingValue) -> (r:
    Result<bool, Error>)
    ensures
        final(state)@.session_secret == old(state)@.session_secret,
        final(state)@.auth == old(state)@.auth,
        r matches Ok(false) ==> final(state)@ == old(state)@,
        r matches Err(e) ==> final(state)@ == old(state)@ && (e is UnknownKey || e is Protocol),
        old(state)@.assistant is None && !(key@ != "preferred_provider"@ && key@ != "gemini"@
            && key@ != "openai"@ && key@ != "deepseek"@) ==> r matches Ok(false),
        key@ == "preferred_provider"@ ==> (match old(state)@.assistant {
            None => true,
            Some(cfg) => match value {
            SecretSettingValue::Text(v) => (r matches Ok(true) && final(state)@.assistant matches Some(c2) && c2 == crate::model::AssistantConfigV {
                preferred_provider: v@,
                ..cfg
            }),
            _ => r matches Ok(false),
            },
        }),
        key@ == "gemini"@ ==> (match old(state)@.assistant {
            None => true,
            Some(cfg) => match value {
            SecretSettingValue::Provider(p) => (r matches Ok(true) && final(state)@.assistant matches Some(c2) && c2 == crate::model::AssistantConfigV {
                gemini: Some(p@),
                ..cfg
            }),
            _ => (r matches Err(e) && e is Protocol),
            },
        }),
        key@ == "openai"@ ==> (match old(state)@.assistant {
            None => true,
            Some(cfg) => match value {
            SecretSettingValue::Provider(p) => (r matches Ok(true) && final(state)@.assistant matches Some(c2) && c2 == crate::model::AssistantConfigV {
                openai: Some(p@),
                ..cfg
            }),
            _ => (r matches Err(e) && e is Protocol),
            },
        }),
        key@ == "deepseek"@ ==> (match old(state)@.assistant {
            None => true,
            Some(cfg) => match value {
            SecretSettingValue::Provider(p) => (r matches Ok(true) && final(state)@.assistant matches Some(c2) && c2 == crate::model::AssistantConfigV {
                deepseek: Some(p@),
                ..cfg
            }),
            _ => (r matches Err(e) && e is Protocol),
            },
        }),
        key@ != "preferred_provider"@ && key@ != "gemini"@ && key@ != "openai"@ && key@
            != "deepseek"@ ==> (r matches Err(e) && e is UnknownKey),
{
    proof {
        reveal_strlit("preferred_provider");
        reveal_strlit("gemini");
        reveal_strlit("openai");
        reveal_strlit("deepseek");
        assert("preferred_provider"@.len() == 18);
        assert("gemini"@.len() == 6);
        assert("openai"@.len() == 6);
        assert("deepseek"@.len() == 8);
        assert("gemini"@[0] == 'g');
        assert("openai"@[0] == 'o');
        assert("gemini"@ != "openai"@);
        assert("preferred_provider"@ != "gemini"@ && "preferred_provider"@ != "openai"@
            && "preferred_provider"@ != "deepseek"@ && "gemini"@ != "deepseek"@ && "openai"@
            != "deepseek"@);
    }
    if crate::codec::str_eq(key, "preferred_provider") {
        match (&mut state.assistant, value) {
            (Some(cfg), SecretSettingValue::Text(v)) => {
                cfg.preferred_provider = v.clone();
                Ok(true)
            },
            _ => Ok(false),
        }
    } else if crate::codec::str_eq(key, "gemini") {
        match (&mut state.assistant, value) {
            (Some(cfg), SecretSettingValue::Provider(p)) => {
                cfg.gemini = Some(p.clone());
                Ok(true)
            },
            (Some(_), _) => Err(Error::Protocol(String::from_str("gemini needs a provider value"))),
            (None, _) => Ok(false),
        }
    } else if crate::codec::str_eq(key, "openai") {
        match (&mut state.assistant, value) {
            (Some(cfg), SecretSettingValue::Provider(p)) => {
                cfg.openai = Some(p.clone());
                Ok(true)
            },
            (Some(_), _) => Err(Error::Protocol(String::from_str("openai needs a provider value"))),
            (None, _) => Ok(false),
        }
    } else if crate::codec::str_eq(key, "deepseek") {
        match (&mut state.assistant, value) {
            (Some(cfg), SecretSettingValue::Provider(p)) => {
                cfg.deepseek = Some(p.clone());
                Ok(true)
            },
            (Some(_), _) => Err(
                Error::Protocol(String::from_str("deepseek needs a provider value")),
            ),
            (None, _) => Ok(false),
        }
    } else {
        Err(Error::UnknownKey(String::from_str("unknown secret setting key: ").concat(key)))
    }
}

} // verus!

//! Settings dispatch, reconnect coalescing, key derivation, and the small
//! utilities.

use anda_desk::model::{
    AppState, AssistantConfig, ModelProvider, SecretState, Settings, Theme,
};
use anda_desk::reconnect::ReconnectCoordinator;
use anda_desk::settings::{
    get_secret_setting, get_settings, set_secret_setting, set_setting, SecretSettingValue,
    SettingValue,
};
use anda_desk::utils::{rand_bytes, redact, unix_ms, SensitiveData};
use anda_desk::Error;

fn app_state() -> AppState {
    AppState {
        os_arch: String::from("aarch64"),
        os_platform: String::from("macos"),
        settings: Settings { locale: String::from("en"), theme: None, https_proxy: None },
        seed: SensitiveData([1u8; 32]),
    }
}

fn secret_state_with_assistant() -> SecretState {
    SecretState {
        session_secret: SensitiveData([2u8; 32]),
        auth: None,
        assistant: Some(AssistantConfig {
            root_secret: SensitiveData([3u8; 48]),
            preferred_provider: String::from("gemini"),
            gemini: None,
            deepseek: None,
            xai: None,
            openai: None,
        }),
    }
}

#[test]
fn set_setting_locale_and_theme() {
    let mut state = app_state();
    let o = set_setting(&mut state, "locale", &SettingValue::Text(String::from("zh"))).unwrap();
    assert!(o.updated && !o.propose_reconnect);
    assert_eq!(state.settings.locale, "zh");

    set_setting(&mut state, "theme", &SettingValue::Text(String::from("light"))).unwrap();
    assert_eq!(state.settings.theme, Some(Theme::Light));
    set_setting(&mut state, "theme", &SettingValue::Text(String::from("dark"))).unwrap();
    assert_eq!(state.settings.theme, Some(Theme::Dark));
    set_setting(&mut state, "theme", &SettingValue::Text(String::from("purple"))).unwrap();
    assert_eq!(state.settings.theme, None);
    assert_eq!(get_settings(&state).locale, "zh");
}

#[test]
fn set_setting_proxy_proposes_reconnect() {
    let mut state = app_state();
    let o = set_setting(
        &mut state,
        "https_proxy",
        &SettingValue::Text(String::from("http://proxy:3128")),
    )
    .unwrap();
    assert!(o.propose_reconnect);
    assert_eq!(state.settings.https_proxy.as_deref(), Some("http://proxy:3128"));
    let o = set_setting(&mut state, "https_proxy", &SettingValue::Text(String::new())).unwrap();
    assert!(o.propose_reconnect);
    assert_eq!(state.settings.https_proxy, None);
}

#[test]
fn set_setting_rejects_unknown_key_and_bad_value() {
    let mut state = app_state();
    match set_setting(&mut state, "volume", &SettingValue::Text(String::from("11"))) {
        Err(Error::UnknownKey(_)) => {},
        _ => panic!("unknown keys are rejected"),
    }
    match set_setting(&mut state, "locale", &SettingValue::Absent) {
        Err(Error::Protocol(_)) => {},
        _ => panic!("locale needs a value"),
    }
    assert_eq!(state.settings.locale, "en", "a rejected change mutates nothing");
}

#[test]
fn secret_settings_read_and_write() {
    let mut state = secret_state_with_assistant();
    match get_secret_setting(&state, "preferred_provider").unwrap() {
        SecretSettingValue::Text(t) => assert_eq!(t, "gemini"),
        _ => panic!("the preferred provider reads back as text"),
    }
    match get_secret_setting(&state, "gemini").unwrap() {
        SecretSettingValue::Null => {},
        _ => panic!("an unconfigured provider reads as null"),
    }
    let p = ModelProvider {
        api_key: String::from("SECRET-REDACTED"),
        api_base: Some(String::from("https://api.example.test")),
        model: String::from("gemini-pro"),
    };
    let updated =
        set_secret_setting(&mut state, "gemini", &SecretSettingValue::Provider(p.clone())).unwrap();
    assert!(updated);
    match get_secret_setting(&state, "gemini").unwrap() {
        SecretSettingValue::Provider(q) => assert_eq!(q, p),
        _ => panic!("the provider reads back"),
    }
    let updated = set_secret_setting(
        &mut state,
        "preferred_provider",
        &SecretSettingValue::Text(String::from("openai")),
    )
    .unwrap();
    assert!(updated);
    assert_eq!(state.assistant.as_ref().unwrap().preferred_provider, "openai");
    match set_secret_setting(&mut state, "model_of_the_day", &SecretSettingValue::Null) {
        Err(Error::UnknownKey(_)) => {},
        _ => panic!("unknown secret keys are rejected"),
    }
}

#[test]
fn secret_settings_without_assistant_do_nothing() {
    let mut state = SecretState {
        session_secret: SensitiveData([2u8; 32]),
        auth: None,
        assistant: None,
    };
    let updated = set_secret_setting(
        &mut state,
        "preferred_provider",
        &SecretSettingValue::Text(String::from("openai")),
    )
    .unwrap();
    assert!(!updated);
    assert!(state.assistant.is_none());
    match get_secret_setting(&state, "openai").unwrap() {
        SecretSettingValue::Null => {},
        _ => panic!("nothing is configured"),
    }
}

#[test]
fn preferred_provider_selection() {
    let mut cfg = AssistantConfig {
        root_secret: SensitiveData([3u8; 48]),
        preferred_provider: String::from("gemini"),
        gemini: None,
        deepseek: None,
        xai: None,
        openai: None,
    };
    assert!(cfg.get_provider().is_none(), "preferred but unconfigured: degraded");
    let p = ModelProvider {
        api_key: String::from("SECRET-REDACTED"),
        api_base: None,
        model: String::from("gemini-pro"),
    };
    cfg.gemini = Some(p.clone());
    assert_eq!(cfg.get_provider(), Some(&p));
    cfg.preferred_provider = String::from("openai");
    assert!(cfg.get_provider().is_none());
    cfg.preferred_provider = String::from("local-llm");
    assert!(cfg.get_provider().is_none(), "an unknown provider name selects nothing");
}

#[test]
fn reconnect_coalesces() {
    let mut c = ReconnectCoordinator::new();
    assert!(!c.try_reconnect(), "nothing pending at the start");
    for _ in 0..5 {
        c.propose_reconnect();
    }
    assert!(c.try_reconnect(), "five proposals trigger one cycle");
    assert!(!c.try_reconnect(), "and nothing further without a new proposal");
    c.propose_reconnect();
    assert!(c.try_reconnect(), "a single proposal is enough");
    assert!(!c.try_reconnect());
}

#[test]
fn initialize_fills_gaps_only() {
    let mut state = AppState {
        os_arch: String::new(),
        os_platform: String::new(),
        settings: Settings { locale: String::new(), theme: None, https_proxy: None },
        seed: SensitiveData([0u8; 32]),
    };
    state.initialize(String::from("x86_64"), String::from("linux"), Some(String::from("zh-CN")));
    assert_eq!(state.settings.locale, "zh");
    assert_ne!(state.seed.0, [0u8; 32], "the seed is minted on first run");
    let seed = state.seed.0;
    let locale = state.settings.locale.clone();
    state.initialize(String::from("x86_64"), String::from("linux"), Some(String::from("en-GB")));
    assert_eq!(state.seed.0, seed, "a minted seed is never replaced");
    assert_eq!(state.settings.locale, locale, "a chosen locale is kept");

    let mut secret = SecretState {
        session_secret: SensitiveData([0u8; 32]),
        auth: None,
        assistant: None,
    };
    secret.initialize();
    assert_ne!(secret.session_secret.0, [0u8; 32]);
    let cfg = secret.assistant.as_ref().unwrap();
    assert_eq!(cfg.preferred_provider, "gemini");
    assert!(cfg.gemini.is_none() && cfg.openai.is_none());
    assert_ne!(cfg.root_secret.0, [0u8; 48]);
}

#[test]
fn key_derivation_is_deterministic() {
    let state = app_state();
    let k1 = state.derive_a256gcm_key(b"Anda.AI");
    let k2 = state.derive_a256gcm_key(b"Anda.AI");
    assert_eq!(k1, k2, "the vault key re-derives identically across runs");
    let k3 = state.derive_a256gcm_key(b"other salt");
    assert_ne!(k1, k3);

    let salt = b"client".to_vec();
    let scoped = state.to_client_state(Some(&salt));
    let scoped2 = state.to_client_state(Some(&salt));
    assert_eq!(scoped.seed.0, scoped2.seed.0);
    assert_ne!(scoped.seed.0, state.seed.0, "the root seed is never handed out");
    assert_eq!(scoped.os_platform, state.os_platform);
}

#[test]
fn redact_masks_middles() {
    assert_eq!(redact("hello world!"), "hel**ld!");
    assert_eq!(redact("secret"), "s**t");
    assert_eq!(redact("abc"), "**");
    assert_eq!(redact(""), "**");
    let s = SensitiveData(String::from("api-key-123456"));
    assert_eq!(s.redacted(), "api**456");
}

#[test]
fn ambient_sources_answer() {
    let a: [u8; 32] = rand_bytes();
    let b: [u8; 32] = rand_bytes();
    assert_ne!(a, b, "two draws of the generator agree only with vanishing probability");
    assert!(unix_ms() > 1_600_000_000_000, "the clock reads a plausible present");
}

#[test]
fn error_messages_carry_through() {
    let e = Error::Crypto(String::from("bad tag"));
    assert_eq!(e.message(), "bad tag");
}

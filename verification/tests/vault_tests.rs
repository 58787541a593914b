//! Round-trip and tamper behaviour of the two vault variants.

use anda_desk::model::{
    AppState, AssistantConfig, InternetIdentityAuth, ModelProvider, SecretState, Settings,
    SignedDelegation, Theme,
};
use anda_desk::utils::SensitiveData;
use anda_desk::vault::{default_app_state, default_secret_state, CipherCell, PlainCell};
use anda_desk::Error;

fn sample_app_state() -> AppState {
    AppState {
        os_arch: String::from("x86_64"),
        os_platform: String::from("linux"),
        settings: Settings {
            locale: String::from("en"),
            theme: Some(Theme::Dark),
            https_proxy: Some(String::from("http://127.0.0.1:8080")),
        },
        seed: SensitiveData([7u8; 32]),
    }
}

fn sample_secret_state() -> SecretState {
    SecretState {
        session_secret: SensitiveData([9u8; 32]),
        auth: Some(InternetIdentityAuth {
            user_pubkey: vec![1, 2, 3, 4],
            delegations: vec![SignedDelegation {
                pubkey: vec![5, 6],
                expiration: 1_900_000_000_000_000_000,
                signature: vec![7, 8, 9],
            }],
            authn_method: String::from("passkey"),
            origin: String::from("https://dmsg.net"),
        }),
        assistant: Some(AssistantConfig {
            root_secret: SensitiveData([3u8; 48]),
            preferred_provider: String::from("gemini"),
            gemini: Some(ModelProvider {
                api_key: String::from("SECRET-REDACTED"),
                api_base: None,
                model: String::from("gemini-pro"),
            }),
            deepseek: None,
            xai: None,
            openai: None,
        }),
    }
}

#[test]
fn plain_round_trip() {
    let state = sample_app_state();
    let bytes = {
        let (cell, init) = PlainCell::load(None).unwrap();
        assert!(init.is_some());
        let mut cell = cell;
        *cell.with_mut() = state;
        cell.save()
    };
    let (loaded, init) = PlainCell::load(Some(&bytes)).unwrap();
    assert!(init.is_none());
    let got = loaded.with();
    assert_eq!(got.os_arch, "x86_64");
    assert_eq!(got.os_platform, "linux");
    assert_eq!(got.settings, sample_app_state().settings);
    assert_eq!(got.seed.0, [7u8; 32]);
}

#[test]
fn plain_load_absent_creates_default_and_persists() {
    let (cell, init) = PlainCell::load(None).unwrap();
    let bytes = init.expect("fresh load must hand back bytes to persist");
    assert_eq!(bytes, cell.save());
    let (again, none) = PlainCell::load(Some(&bytes)).unwrap();
    assert!(none.is_none());
    assert_eq!(again.with().os_arch, "");
    assert_eq!(again.with().settings.locale, "");
    assert_eq!(again.with().seed.0, [0u8; 32]);
    let d = default_app_state();
    assert_eq!(d.os_platform, "");
}

#[test]
fn plain_load_garbage_is_config_error() {
    let garbage = vec![0xffu8, 0x00, 0x13, 0x37];
    match PlainCell::load(Some(&garbage)) {
        Err(Error::Config(_)) => {},
        other => panic!("expected a config error, got {:?}", other.is_ok()),
    }
}

#[test]
fn cipher_round_trip() {
    let key = [42u8; 32];
    let (mut cell, _init) = CipherCell::load(key, None).unwrap();
    *cell.with_mut() = sample_secret_state();
    let bytes = cell.save().unwrap();
    let (loaded, init) = CipherCell::load(key, Some(&bytes)).unwrap();
    assert!(init.is_none());
    let got = loaded.with();
    let want = sample_secret_state();
    assert_eq!(got.session_secret.0, want.session_secret.0);
    assert_eq!(got.auth, want.auth);
    let got_cfg = got.assistant.as_ref().unwrap();
    let want_cfg = want.assistant.as_ref().unwrap();
    assert_eq!(got_cfg.root_secret.0, want_cfg.root_secret.0);
    assert_eq!(got_cfg.preferred_provider, want_cfg.preferred_provider);
    assert_eq!(got_cfg.gemini, want_cfg.gemini);
    assert_eq!(got_cfg.openai, want_cfg.openai);
}

#[test]
fn cipher_fresh_load_persists_default() {
    let key = [1u8; 32];
    let (cell, init) = CipherCell::load(key, None).unwrap();
    let bytes = init.expect("fresh load must hand back sealed bytes");
    assert!(bytes.len() >= 28);
    let (loaded, _) = CipherCell::load(key, Some(&bytes)).unwrap();
    assert_eq!(loaded.with().session_secret.0, [0u8; 32]);
    assert!(loaded.with().auth.is_none());
    assert!(loaded.with().assistant.is_none());
    let d = default_secret_state();
    assert!(d.assistant.is_none());
}

#[test]
fn cipher_rejects_short_file() {
    let key = [1u8; 32];
    let short = vec![0u8; 27];
    match CipherCell::load(key, Some(&short)) {
        Err(Error::Crypto(_)) => {},
        _ => panic!("a file shorter than 28 bytes must be a crypto error"),
    }
}

#[test]
fn cipher_rejects_wrong_key() {
    let (mut cell, _) = CipherCell::load([2u8; 32], None).unwrap();
    *cell.with_mut() = sample_secret_state();
    let bytes = cell.save().unwrap();
    match CipherCell::load([3u8; 32], Some(&bytes)) {
        Err(Error::Crypto(_)) => {},
        _ => panic!("decrypting under the wrong key must be a crypto error"),
    }
}

#[test]
fn cipher_tamper_any_single_bit_fails() {
    let key = [5u8; 32];
    let (mut cell, _) = CipherCell::load(key, None).unwrap();
    *cell.with_mut() = sample_secret_state();
    let bytes = cell.save().unwrap();
    for byte in 0..bytes.len() {
        for bit in 0..8 {
            let mut tampered = bytes.clone();
            tampered[byte] ^= 1 << bit;
            match CipherCell::load(key, Some(&tampered)) {
                Err(Error::Crypto(_)) => {},
                Ok(_) => panic!("bit flip at byte {byte} bit {bit} decoded successfully"),
                Err(_) => panic!("bit flip at byte {byte} bit {bit} gave the wrong error kind"),
            }
        }
    }
}

#[test]
fn cipher_save_uses_fresh_nonce() {
    let key = [8u8; 32];
    let (cell, _) = CipherCell::load(key, None).unwrap();
    let a = cell.save().unwrap();
    let b = cell.save().unwrap();
    assert_ne!(a[..12], b[..12], "two saves must not share a nonce");
    let (la, _) = CipherCell::load(key, Some(&a)).unwrap();
    let (lb, _) = CipherCell::load(key, Some(&b)).unwrap();
    assert_eq!(la.with().session_secret.0, lb.with().session_secret.0);
}

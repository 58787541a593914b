//! The sign-in protocol end to end, with real Ed25519 delegation chains
//! built the way the identity provider builds them.

use anda_desk::deeplink::{
    dec_sign_in_request, logout, Config, DeepLinkRequest, DeepLinkResponse, DeepLinkService,
    StartSignIn, UrlOutcome, MAX_TIME_TO_LIVE,
};
use anda_desk::identity::IdentityHolder;
use anda_desk::model::{AppState, SecretState, Settings, SignedDelegation};
use anda_desk::utils::SensitiveData;
use anda_desk::vault::{CipherCell, PlainCell};
use anda_desk::Error;
use ed25519_dalek::Signer;
use sha2::Digest;

const NOW_MS: u64 = 1_700_000_000_000;
const FUTURE_NS: u64 = 1_900_000_000_000_000_000;

fn sha256(data: &[u8]) -> [u8; 32] {
    let mut h = sha2::Sha256::new();
    h.update(data);
    h.finalize().into()
}

fn leb128(mut v: u64) -> Vec<u8> {
    let mut out = Vec::new();
    loop {
        let mut b = (v & 0x7f) as u8;
        v >>= 7;
        if v != 0 {
            b |= 0x80;
        }
        out.push(b);
        if v == 0 {
            return out;
        }
    }
}

/// The domain-separated message whose signature authorizes a delegation
/// of `(pubkey, expiration)`: the representation-independent hash of the
/// two-field map, with the auth-delegation prefix.
fn delegation_message(pubkey: &[u8], expiration: u64) -> Vec<u8> {
    let mut pairs = vec![
        (sha256(b"pubkey"), sha256(pubkey)),
        (sha256(b"expiration"), sha256(&leb128(expiration))),
    ];
    pairs.sort();
    let mut concat = Vec::new();
    for (k, v) in pairs {
        concat.extend_from_slice(&k);
        concat.extend_from_slice(&v);
    }
    let mut msg = b"\x1aic-request-auth-delegation".to_vec();
    msg.extend_from_slice(&sha256(&concat));
    msg
}

fn der_pubkey(secret: &[u8; 32]) -> Vec<u8> {
    let raw = ed25519_dalek::SigningKey::from_bytes(secret).verifying_key().to_bytes();
    let mut v = vec![0x30, 0x2a, 0x30, 0x05, 0x06, 0x03, 0x2b, 0x65, 0x70, 0x03, 0x21, 0x00];
    v.extend_from_slice(&raw);
    v
}

fn sign_link(signer: &[u8; 32], pubkey: &[u8], expiration: u64) -> SignedDelegation {
    let key = ed25519_dalek::SigningKey::from_bytes(signer);
    let sig = key.sign(&delegation_message(pubkey, expiration));
    SignedDelegation {
        pubkey: pubkey.to_vec(),
        expiration,
        signature: sig.to_bytes().to_vec(),
    }
}

/// A two-link chain: root delegates to an intermediate key, which
/// delegates to the session key.
fn two_link_chain(
    root: &[u8; 32],
    mid: &[u8; 32],
    session_pubkey_der: &[u8],
    e1: u64,
    e2: u64,
) -> Vec<SignedDelegation> {
    let mid_der = der_pubkey(mid);
    vec![sign_link(root, &mid_der, e1), sign_link(mid, session_pubkey_der, e2)]
}

fn callback_url(endpoint: &str, chain: Vec<SignedDelegation>, root_der: Vec<u8>) -> String {
    let resp = anda_desk::deeplink::SignInResponse {
        user_pubkey: root_der,
        delegations: chain,
        authn_method: String::from("passkey"),
        origin: String::from("https://dmsg.net"),
    };
    let mut payload = Vec::new();
    anda_desk::deeplink::enc_sign_in_response(&mut payload, &resp);
    let req = DeepLinkRequest {
        os: String::from("linux"),
        action: String::from("SignIn"),
        next_url: String::from("https://anda.ai/deeplink/"),
        payload: Some(payload),
    };
    req.to_url(endpoint)
}

#[test]
fn end_to_end_sign_in() {
    // Fresh vaults: both files absent.
    let (mut app_cell, app_init) = PlainCell::load(None).unwrap();
    assert!(app_init.is_some(), "first run persists the plaintext state");
    app_cell.with_mut().initialize(
        String::from("x86_64"),
        String::from("linux"),
        Some(String::from("en-US")),
    );
    let key = app_cell.with().derive_a256gcm_key(b"Anda.AI");
    let (mut secret_cell, secret_init) = CipherCell::load(key, None).unwrap();
    assert!(secret_init.is_some(), "first run persists the encrypted state");
    secret_cell.with_mut().initialize();

    let mut holder = IdentityHolder::new();
    let mut service = DeepLinkService::init(Config {
        sign_in_endpoint: String::from("https://dmsg.net/oauth/deeplink"),
    })
    .unwrap();

    // Start: a URL whose fragment decodes to the fresh session key and the
    // thirty-day lifetime.
    let url = match service.start_sign_in(app_cell.with(), secret_cell.with_mut(), &holder, NOW_MS)
    {
        StartSignIn::Started(url) => url,
        _ => panic!("an anonymous holder must start a sign-in"),
    };
    assert!(url.starts_with("https://dmsg.net/oauth/deeplink?os=linux&action=SignIn&next_url="));
    let parsed = DeepLinkResponse::from_str(&url).unwrap();
    assert_eq!(parsed.os, "linux", "the os query value reads back");
    assert_eq!(parsed.action, "SignIn", "the action query value reads back");
    let payload = parsed.payload.expect("the fragment carries the payload");
    let (req, end) = dec_sign_in_request(&payload, 0).unwrap();
    assert_eq!(end, payload.len());
    assert_eq!(req.max_time_to_live, 2_592_000_000);
    assert_eq!(req.max_time_to_live, MAX_TIME_TO_LIVE);
    let session_pubkey = secret_cell.with().session_pubkey();
    assert_eq!(req.session_pubkey, session_pubkey);

    // Simulate the provider: a valid two-link chain down to the session key.
    let root = [11u8; 32];
    let mid = [22u8; 32];
    let chain = two_link_chain(&root, &mid, &session_pubkey, FUTURE_NS, FUTURE_NS - 1);
    let cb = callback_url("https://dmsg.net/oauth/deeplink", chain.clone(), der_pubkey(&root));

    let outcomes = service.on_open_url(
        &vec![cb],
        secret_cell.with_mut(),
        &mut holder,
        NOW_MS,
    );
    assert_eq!(outcomes.len(), 1);
    let info = match &outcomes[0] {
        UrlOutcome::SignedIn(info) => info,
        UrlOutcome::SignInFailed(e) => panic!("sign-in failed: {}", e.message()),
        _ => panic!("expected a sign-in outcome"),
    };

    // The principal comes from the root key alone.
    let expected = candid::Principal::self_authenticating(&der_pubkey(&root));
    assert_eq!(info.id, expected.as_slice().to_vec());
    assert_eq!(info.expiration, Some((FUTURE_NS - 1) / 1_000_000));
    assert!(!holder.get().is_anonymous());

    // The vault now holds the auth record of exactly this chain.
    let bytes = secret_cell.save().unwrap();
    let (reloaded, _) = CipherCell::load(key, Some(&bytes)).unwrap();
    let auth = reloaded.with().auth.clone().expect("auth record persisted");
    assert_eq!(auth.user_pubkey, der_pubkey(&root));
    assert_eq!(auth.delegations, chain);
    assert_eq!(auth.authn_method, "passkey");

    // Idempotent start while authenticated: no-op, twice, nothing mutated.
    let session_before = reloaded.with().session_secret.0;
    let mut secret = reloaded;
    for _ in 0..2 {
        match service.start_sign_in(app_cell.with(), secret.with_mut(), &holder, NOW_MS) {
            StartSignIn::AlreadyAuthenticated => {},
            _ => panic!("start while authenticated must be a no-op"),
        }
        assert_eq!(secret.with().session_secret.0, session_before);
        assert_eq!(secret.with().auth.as_ref().unwrap().delegations, chain);
    }

    // Logout clears the record and the identity.
    assert!(logout(secret.with_mut(), &mut holder));
    assert!(secret.with().auth.is_none());
    assert!(holder.get().is_anonymous());
    assert!(!logout(secret.with_mut(), &mut holder), "a second logout is a no-op");
}

#[test]
fn valid_two_link_chain_materializes() {
    let session = [33u8; 32];
    let session_der = der_pubkey(&session);
    let root = [1u8; 32];
    let mid = [2u8; 32];
    let auth = anda_desk::model::InternetIdentityAuth {
        user_pubkey: der_pubkey(&root),
        delegations: two_link_chain(&root, &mid, &session_der, FUTURE_NS, FUTURE_NS),
        authn_method: String::from("pin"),
        origin: String::from("https://panda.fans"),
    };
    let id = auth.to_identity(session, NOW_MS).expect("a correctly signed chain verifies");
    let expected = candid::Principal::self_authenticating(&der_pubkey(&root));
    assert_eq!(id.principal(), expected.as_slice().to_vec());

    // The principal depends on the root key alone: another session key,
    // same root, same principal.
    let other_session = [44u8; 32];
    let auth2 = anda_desk::model::InternetIdentityAuth {
        user_pubkey: der_pubkey(&root),
        delegations: two_link_chain(&root, &mid, &der_pubkey(&other_session), FUTURE_NS, FUTURE_NS),
        authn_method: String::from("pin"),
        origin: String::from("https://panda.fans"),
    };
    let id2 = auth2.to_identity(other_session, NOW_MS).unwrap();
    assert_eq!(id.principal(), id2.principal());
}

#[test]
fn expired_chain_is_rejected() {
    let session = [33u8; 32];
    let session_der = der_pubkey(&session);
    let root = [1u8; 32];
    let mid = [2u8; 32];
    // Correctly signed, but the last link expired before `NOW_MS`.
    let expired_ns = (NOW_MS - 1) * 1_000_000;
    let auth = anda_desk::model::InternetIdentityAuth {
        user_pubkey: der_pubkey(&root),
        delegations: two_link_chain(&root, &mid, &session_der, FUTURE_NS, expired_ns),
        authn_method: String::from("pin"),
        origin: String::from("https://panda.fans"),
    };
    match auth.to_identity(session, NOW_MS) {
        Err(Error::ExpiredOrInvalidDelegation(_)) => {},
        _ => panic!("an expired chain must be rejected"),
    }
}

#[test]
fn tampered_chain_is_rejected() {
    let session = [33u8; 32];
    let session_der = der_pubkey(&session);
    let root = [1u8; 32];
    let mid = [2u8; 32];
    let mut chain = two_link_chain(&root, &mid, &session_der, FUTURE_NS, FUTURE_NS);
    // Extending the expiry without re-signing must break the signature.
    chain[1].expiration = FUTURE_NS + 1;
    let auth = anda_desk::model::InternetIdentityAuth {
        user_pubkey: der_pubkey(&root),
        delegations: chain,
        authn_method: String::from("pin"),
        origin: String::from("https://panda.fans"),
    };
    assert!(auth.to_identity(session, NOW_MS).is_err());
}

#[test]
fn empty_chain_is_rejected() {
    let session = [33u8; 32];
    let root = [1u8; 32];
    let auth = anda_desk::model::InternetIdentityAuth {
        user_pubkey: der_pubkey(&root),
        delegations: Vec::new(),
        authn_method: String::from("pin"),
        origin: String::from("https://panda.fans"),
    };
    match auth.to_identity(session, NOW_MS) {
        Err(Error::ExpiredOrInvalidDelegation(_)) => {},
        _ => panic!("an empty chain proves nothing"),
    }
}

#[test]
fn wrong_session_key_is_rejected() {
    let session = [33u8; 32];
    let other = [34u8; 32];
    let root = [1u8; 32];
    let mid = [2u8; 32];
    let auth = anda_desk::model::InternetIdentityAuth {
        user_pubkey: der_pubkey(&root),
        delegations: two_link_chain(&root, &mid, &der_pubkey(&other), FUTURE_NS, FUTURE_NS),
        authn_method: String::from("pin"),
        origin: String::from("https://panda.fans"),
    };
    assert!(auth.to_identity(session, NOW_MS).is_err(), "chain ends at another key");
}

#[test]
fn unknown_action_is_reported_not_fatal() {
    let mut app = AppState {
        os_arch: String::from("x86_64"),
        os_platform: String::from("linux"),
        settings: Settings { locale: String::from("en"), theme: None, https_proxy: None },
        seed: SensitiveData([1u8; 32]),
    };
    app.initialize(String::from("x86_64"), String::from("linux"), None);
    let mut secret = SecretState {
        session_secret: SensitiveData([2u8; 32]),
        auth: None,
        assistant: None,
    };
    let mut holder = IdentityHolder::new();
    let mut service = DeepLinkService::init(Config {
        sign_in_endpoint: String::from("https://dmsg.net/oauth/deeplink"),
    })
    .unwrap();
    let req = DeepLinkRequest {
        os: String::from("linux"),
        action: String::from("Frobnicate"),
        next_url: String::from("https://anda.ai/deeplink/"),
        payload: None,
    };
    let url = req.to_url("https://dmsg.net/oauth/deeplink");
    let outcomes = service.on_open_url(&vec![url], &mut secret, &mut holder, NOW_MS);
    match &outcomes[0] {
        UrlOutcome::UnknownAction(a) => assert_eq!(a, "Frobnicate"),
        _ => panic!("an unknown action is reported, nothing more"),
    }
    assert!(secret.auth.is_none());
    assert!(holder.get().is_anonymous());
}

#[test]
fn bad_fragment_is_protocol_error() {
    match DeepLinkResponse::from_str("https://x.test/cb?os=linux&action=SignIn#not*base64") {
        Err(Error::Protocol(_)) => {},
        _ => panic!("an invalid fragment must be a protocol error"),
    }
}

#[test]
fn malformed_url_is_protocol_error() {
    match DeepLinkResponse::from_str("not a url") {
        Err(Error::Protocol(_)) => {},
        _ => panic!("a string without a scheme must be a protocol error"),
    }
    match DeepLinkResponse::from_str("") {
        Err(Error::Protocol(_)) => {},
        _ => panic!("the empty string must be a protocol error"),
    }
}

#[test]
fn missing_query_keys_read_as_empty() {
    let resp = DeepLinkResponse::from_str("https://x.test/cb").unwrap();
    assert_eq!(resp.os, "");
    assert_eq!(resp.action, "");
    assert!(resp.payload.is_none());
}

#[test]
fn endpoint_with_query_is_refused() {
    match DeepLinkService::init(Config { sign_in_endpoint: String::from("https://x.test/?a=b") }) {
        Err(Error::Config(_)) => {},
        _ => panic!("an endpoint carrying a query must be refused"),
    }
}

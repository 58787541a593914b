//! The binary codec against reference encoders: CBOR heads against a
//! stock CBOR implementation, and the base64url and percent codecs against
//! known vectors.

use anda_desk::b64::{b64_decode, b64_encode};
use anda_desk::cbor::{dec_uint, enc_text, enc_uint};
use anda_desk::codec::enc_settings;
use anda_desk::deeplink::{pct_decode, pct_encode};
use anda_desk::model::{Settings, Theme};
use ciborium::Value;

#[test]
fn uint_heads_are_minimal() {
    let cases: Vec<(u64, Vec<u8>)> = vec![
        (0, vec![0x00]),
        (23, vec![0x17]),
        (24, vec![0x18, 24]),
        (255, vec![0x18, 255]),
        (256, vec![0x19, 0x01, 0x00]),
        (65535, vec![0x19, 0xff, 0xff]),
        (65536, vec![0x1a, 0x00, 0x01, 0x00, 0x00]),
        (u32::MAX as u64, vec![0x1a, 0xff, 0xff, 0xff, 0xff]),
        (u32::MAX as u64 + 1, vec![0x1b, 0, 0, 0, 1, 0, 0, 0, 0]),
        (u64::MAX, vec![0x1b, 0xff, 0xff, 0xff, 0xff, 0xff, 0xff, 0xff, 0xff]),
    ];
    for (v, want) in cases {
        let mut out = Vec::new();
        enc_uint(&mut out, v);
        assert_eq!(out, want, "encoding of {v}");
        let (back, end) = dec_uint(&out, 0).unwrap();
        assert_eq!(back, v);
        assert_eq!(end, out.len());
    }
}

#[test]
fn uint_decode_rejects_non_minimal() {
    // 24 encoded with an 8-byte argument is valid CBOR but not canonical.
    let loose = vec![0x1b, 0, 0, 0, 0, 0, 0, 0, 24];
    assert!(dec_uint(&loose, 0).is_none());
    let loose2 = vec![0x18, 7];
    assert!(dec_uint(&loose2, 0).is_none());
}

#[test]
fn settings_encoding_matches_stock_cbor() {
    let s = Settings {
        locale: String::from("en"),
        theme: Some(Theme::Dark),
        https_proxy: None,
    };
    let mut ours = Vec::new();
    enc_settings(&mut ours, &s);

    let v = Value::Map(vec![
        (Value::Text("locale".into()), Value::Text("en".into())),
        (Value::Text("theme".into()), Value::Text("dark".into())),
        (Value::Text("https_proxy".into()), Value::Null),
    ]);
    let mut theirs = Vec::new();
    ciborium::into_writer(&v, &mut theirs).unwrap();
    assert_eq!(ours, theirs);
}

#[test]
fn text_encoding_is_utf8() {
    let mut out = Vec::new();
    enc_text(&mut out, "héllo");
    assert_eq!(out[0], 0x66, "six UTF-8 bytes");
    assert_eq!(&out[1..], "héllo".as_bytes());
}

#[test]
fn base64url_known_vectors() {
    let cases: Vec<(&[u8], &str)> = vec![
        (b"", ""),
        (b"f", "Zg"),
        (b"fo", "Zm8"),
        (b"foo", "Zm9v"),
        (b"foob", "Zm9vYg"),
        (b"fooba", "Zm9vYmE"),
        (b"foobar", "Zm9vYmFy"),
        (&[0xfb, 0xff, 0xfe], "-__-"),
    ];
    for (raw, want) in cases {
        let enc = b64_encode(&raw.to_vec());
        assert_eq!(enc, want.as_bytes(), "encoding of {raw:?}");
        let dec = b64_decode(&enc).unwrap();
        assert_eq!(dec, raw);
    }
}

#[test]
fn base64url_decode_is_canonical() {
    // Padded and non-canonical forms are rejected outright.
    assert!(b64_decode(&b"Zg==".to_vec()).is_none());
    assert!(b64_decode(&b"Zh".to_vec()).is_none(), "dirty padding bits");
    assert!(b64_decode(&b"A".to_vec()).is_none(), "impossible length");
    assert!(b64_decode(&b"Zm+v".to_vec()).is_none(), "standard alphabet");
}

#[test]
fn percent_codec_round_trips() {
    let raw = "a b/ä?&=#%".as_bytes().to_vec();
    let enc = pct_encode(&raw);
    for &b in &enc {
        assert!(b.is_ascii_alphanumeric() || b == b'-' || b == b'.' || b == b'_' || b == b'~'
            || b == b'%' || (b'0'..=b'9').contains(&b) || (b'A'..=b'F').contains(&b));
    }
    assert_eq!(pct_decode(&enc), raw);
    assert_eq!(
        String::from_utf8(pct_encode(&b"a b".to_vec())).unwrap(),
        "a%20b"
    );
}

//! The binary form of the persisted state types: each is one CBOR map with
//! the field names as text keys, in declaration order, and every value in
//! its canonical encoding.
//!
//! Every decoder here is strict — it accepts exactly the bytes its encoder
//! produces — so `decode` both inverts `encode` and pins down the input
//! bytes of any successful decode.

use vstd::prelude::*;
use vstd::string::StringSliceAdditionalSpecFns;

use crate::cbor::{
    dec_bytes, dec_map_head, dec_text, dec_uint, enc_bytes, enc_map_head, enc_null, enc_text,
    enc_uint, is_at, lemma_is_at_concat, spec_bytes, spec_head, spec_map_head, spec_null,
    spec_text, spec_uint,
};
use crate::model::{AppState, AppStateV, Settings, SettingsV, Theme};
use crate::utils::SensitiveData;

verus! {

/// True byte-for-byte equality of two strings, stated over their views.
pub fn str_eq(a: &str, b: &str) -> (r: bool)
    ensures
        r == (a@ == b@),
{
    broadcast use vstd::utf8::encode_utf8_decode_utf8;

    let ab = a.as_bytes();
    let bb = b.as_bytes();
    if ab.len() != bb.len() {
        proof {
            if a@ == b@ {
                assert(ab@ == bb@);
            }
        }
        return false;
    }
    let n = ab.len();
    let mut i: usize = 0;
    while i < n
        invariant
            n == ab@.len() == bb@.len(),
            i <= n,
            forall|j: int| 0 <= j < i ==> ab@[j] == bb@[j],
            ab@ == a.spec_bytes(),
            bb@ == b.spec_bytes(),
        decreases n - i,
    {
        if *vstd::slice::slice_index_get(ab, i) != *vstd::slice::slice_index_get(bb, i) {
            proof {
                if a@ == b@ {
                    assert(ab@ == bb@);
                }
            }
            return false;
        }
        i += 1;
    }
    proof {
        assert(ab@ =~= bb@);
        assert(vstd::utf8::decode_utf8(vstd::utf8::encode_utf8(a@)) == a@);
        assert(vstd::utf8::decode_utf8(vstd::utf8::encode_utf8(b@)) == b@);
    }
    true
}

/// The first byte of an occurrence is visible in the buffer.
pub proof fn lemma_first_byte(b: Seq<u8>, pos: int, part: Seq<u8>)
    requires
        is_at(b, pos, part),
        part.len() >= 1,
    ensures
        b[pos] == part[0],
{
    assert(part[0] == b.subrange(pos, pos + part.len())[0]);
}

/// A head never begins with the null byte: its first byte carries the major
/// type in its upper bits.
pub proof fn lemma_head_first_byte(major: u8, arg: u64)
    requires
        major < 8,
    ensures
        spec_head(major, arg).len() >= 1,
        major * 32 <= spec_head(major, arg)[0] < major * 32 + 28,
{
}

/// Joins occurrences of two adjacent parts into one.
pub proof fn lemma_is_at_join(b: Seq<u8>, pos: int, s1: Seq<u8>, s2: Seq<u8>)
    requires
        is_at(b, pos, s1),
        is_at(b, pos + s1.len(), s2),
    ensures
        is_at(b, pos, s1 + s2),
{
    assert(b.subrange(pos, pos + s1.len() + s2.len()) =~= s1 + s2);
}

/// The encoding of an optional theme: null, or the theme's name.
pub open spec fn spec_enc_theme(t: Option<Theme>) -> Seq<u8> {
    match t {
        None => spec_null(),
        Some(Theme::Light) => spec_text("light"@),
        Some(Theme::Dark) => spec_text("dark"@),
    }
}

/// The encoding of an optional text value: null, or the text.
pub open spec fn spec_enc_opt_text(o: Option<Seq<char>>) -> Seq<u8> {
    match o {
        None => spec_null(),
        Some(s) => spec_text(s),
    }
}

/// The encoding of `Settings`: a three-pair map.
pub open spec fn spec_enc_settings(v: SettingsV) -> Seq<u8> {
    spec_map_head(3) + spec_text("locale"@) + spec_text(v.locale) + spec_text("theme"@)
        + spec_enc_theme(v.theme) + spec_text("https_proxy"@) + spec_enc_opt_text(v.https_proxy)
}

/// Positions of the parts of an encoded `Settings` within a buffer.
proof fn lemma_settings_parts(b: Seq<u8>, pos: int, w: SettingsV)
    requires
        is_at(b, pos, spec_enc_settings(w)),
    ensures
        is_at(b, pos, spec_map_head(3)),
        is_at(b, pos + 1, spec_text("locale"@)),
        is_at(b, pos + 1 + spec_text("locale"@).len(), spec_text(w.locale)),
        is_at(
            b,
            pos + 1 + spec_text("locale"@).len() + spec_text(w.locale).len(),
            spec_text("theme"@),
        ),
        is_at(
            b,
            pos + 1 + spec_text("locale"@).len() + spec_text(w.locale).len() + spec_text(
                "theme"@,
            ).len(),
            spec_enc_theme(w.theme),
        ),
        is_at(
            b,
            pos + 1 + spec_text("locale"@).len() + spec_text(w.locale).len() + spec_text(
                "theme"@,
            ).len() + spec_enc_theme(w.theme).len(),
            spec_text("https_proxy"@),
        ),
        is_at(
            b,
            pos + 1 + spec_text("locale"@).len() + spec_text(w.locale).len() + spec_text(
                "theme"@,
            ).len() + spec_enc_theme(w.theme).len() + spec_text("https_proxy"@).len(),
            spec_enc_opt_text(w.https_proxy),
        ),
{
    let s1 = spec_map_head(3);
    let s2 = spec_text("locale"@);
    let s3 = spec_text(w.locale);
    let s4 = spec_text("theme"@);
    let s5 = spec_enc_theme(w.theme);
    let s6 = spec_text("https_proxy"@);
    let s7 = spec_enc_opt_text(w.https_proxy);
    lemma_is_at_concat(b, pos, s1 + s2 + s3 + s4 + s5 + s6, s7);
    lemma_is_at_concat(b, pos, s1 + s2 + s3 + s4 + s5, s6);
    lemma_is_at_concat(b, pos, s1 + s2 + s3 + s4, s5);
    lemma_is_at_concat(b, pos, s1 + s2 + s3, s4);
    lemma_is_at_concat(b, pos, s1 + s2, s3);
    lemma_is_at_concat(b, pos, s1, s2);
    assert(s1.len() == 1);
}

/// Appends the encoding of an optional theme.
pub fn enc_theme(out: &mut Vec<u8>, t: &Option<Theme>)
    ensures
        final(out)@ =~= old(out)@ + spec_enc_theme(*t),
{
    match t {
        None => enc_null(out),
        Some(Theme::Light) => enc_text(out, "light"),
        Some(Theme::Dark) => enc_text(out, "dark"),
    }
}

/// Appends the encoding of an optional text value.
pub fn enc_opt_text(out: &mut Vec<u8>, o: &Option<String>)
    ensures
        final(out)@ =~= old(out)@ + spec_enc_opt_text(
            match *o {
                Some(ref s) => Some(s@),
                None => None,
            },
        ),
{
    match o {
        None => enc_null(out),
        Some(s) => enc_text(out, s.as_str()),
    }
}

/// Appends the encoding of `Settings`.
pub fn enc_settings(out: &mut Vec<u8>, v: &Settings)
    ensures
        final(out)@ =~= old(out)@ + spec_enc_settings(v@),
{
    enc_map_head(out, 3);
    enc_text(out, "locale");
    enc_text(out, v.locale.as_str());
    enc_text(out, "theme");
    enc_theme(out, &v.theme);
    enc_text(out, "https_proxy");
    enc_opt_text(out, &v.https_proxy);
}

/// Reads an optional theme at `pos`.
fn dec_theme(b: &Vec<u8>, pos: usize) -> (r: Option<(Option<Theme>, usize)>)
    ensures
        r matches Some((t, end)) ==> {
            &&& pos < end <= b@.len()
            &&& end - pos == spec_enc_theme(t).len()
            &&& is_at(b@, pos as int, spec_enc_theme(t))
        },
        forall|t: Option<Theme>|
            is_at(b@, pos as int, #[trigger] spec_enc_theme(t)) ==> r == Some(
                (t, (pos + spec_enc_theme(t).len()) as usize),
            ),
{
    proof {
        reveal_strlit("light");
        reveal_strlit("dark");
    }
    if pos < b.len() && b[pos] == 0xf6 {
        proof {
            assert(b@.subrange(pos as int, pos + 1) =~= spec_null());
            assert forall|t: Option<Theme>|
                is_at(b@, pos as int, #[trigger] spec_enc_theme(t)) implies t == None::<Theme> by {
                match t {
                    Some(th) => {
                        let s = if th == Theme::Light {
                            "light"@
                        } else {
                            "dark"@
                        };
                        lemma_first_byte(b@, pos as int, spec_text(s));
                        lemma_head_first_byte(3, vstd::utf8::encode_utf8(s).len() as u64);
                        assert(spec_text(s)[0] == spec_head(
                            3,
                            vstd::utf8::encode_utf8(s).len() as u64,
                        )[0]);
                    },
                    None => {},
                }
            }
        }
        Some((None, pos + 1))
    } else {
        match dec_text(b, pos) {
            Some((s, end)) => {
                let is_light = str_eq(s.as_str(), "light");
                let is_dark = str_eq(s.as_str(), "dark");
                proof {
                    if is_at(b@, pos as int, spec_enc_theme(None)) {
                        lemma_first_byte(b@, pos as int, spec_null());
                    }
                }
                if is_light {
                    Some((Some(Theme::Light), end))
                } else if is_dark {
                    Some((Some(Theme::Dark), end))
                } else {
                    None
                }
            },
            None => {
                proof {
                    assert forall|t: Option<Theme>|
                        is_at(b@, pos as int, #[trigger] spec_enc_theme(t)) implies false by {
                        match t {
                            Some(th) => {},
                            None => {
                                lemma_first_byte(b@, pos as int, spec_null());
                            },
                        }
                    }
                }
                None
            },
        }
    }
}

/// Reads an optional text value at `pos`.
pub fn dec_opt_text(b: &Vec<u8>, pos: usize) -> (r: Option<(Option<String>, usize)>)
    ensures
        r matches Some((o, end)) ==> {
            &&& pos < end <= b@.len()
            &&& end - pos == spec_enc_opt_text(
                match o {
                    Some(ref s) => Some(s@),
                    None => None,
                },
            ).len()
            &&& is_at(
                b@,
                pos as int,
                spec_enc_opt_text(
                    match o {
                        Some(ref s) => Some(s@),
                        None => None,
                    },
                ),
            )
        },
        forall|o: Option<Seq<char>>|
            is_at(b@, pos as int, #[trigger] spec_enc_opt_text(o)) ==> (r matches Some((v, end))
                && (match v {
                Some(ref s) => Some(s@),
                None => None,
            }) == o && end == pos + spec_enc_opt_text(o).len()),
{
    if pos < b.len() && b[pos] == 0xf6 {
        proof {
            assert(b@.subrange(pos as int, pos + 1) =~= spec_null());
            assert forall|o: Option<Seq<char>>|
                is_at(b@, pos as int, #[trigger] spec_enc_opt_text(o)) implies o == None::<
                Seq<char>,
            > by {
                match o {
                    Some(s) => {
                        lemma_first_byte(b@, pos as int, spec_text(s));
                        lemma_head_first_byte(3, vstd::utf8::encode_utf8(s).len() as u64);
                        assert(spec_text(s)[0] == spec_head(
                            3,
                            vstd::utf8::encode_utf8(s).len() as u64,
                        )[0]);
                    },
                    None => {},
                }
            }
        }
        Some((None, pos + 1))
    } else {
        match dec_text(b, pos) {
            Some((s, end)) => {
                proof {
                    if is_at(b@, pos as int, spec_enc_opt_text(None)) {
                        lemma_first_byte(b@, pos as int, spec_null());
                    }
                }
                Some((Some(s), end))
            },
            None => {
                proof {
                    assert forall|o: Option<Seq<char>>|
                        is_at(b@, pos as int, #[trigger] spec_enc_opt_text(o)) implies false by {
                        match o {
                            Some(s) => {},
                            None => {
                                lemma_first_byte(b@, pos as int, spec_null());
                            },
                        }
                    }
                }
                None
            },
        }
    }
}

/// Reads a `Settings` at `pos`.
pub fn dec_settings(b: &Vec<u8>, pos: usize) -> (r: Option<(Settings, usize)>)
    ensures
        r matches Some((v, end)) ==> {
            &&& pos < end <= b@.len()
            &&& end - pos == spec_enc_settings(v@).len()
            &&& is_at(b@, pos as int, spec_enc_settings(v@))
        },
        forall|w: SettingsV|
            is_at(b@, pos as int, #[trigger] spec_enc_settings(w)) ==> (r matches Some((v, end))
                && v@ == w && end == pos + spec_enc_settings(w).len()),
{
    proof {
        reveal_strlit("locale");
        reveal_strlit("theme");
        reveal_strlit("https_proxy");
    }
    let r1 = dec_map_head(b, pos);
    let (n1, p1) = match r1 {
        Some((n1, p1)) if n1 == 3 => (n1, p1),
        _ => {
            proof {
                assert forall|w: SettingsV|
                    is_at(b@, pos as int, #[trigger] spec_enc_settings(w)) implies false by {
                    lemma_settings_parts(b@, pos as int, w);
                }
            }
            return None;
        },
    };
    let k1 = dec_text(b, p1);
    let (s1, p2) = match k1 {
        Some((s1, p2)) => (s1, p2),
        None => {
            proof {
                assert forall|w: SettingsV|
                    is_at(b@, pos as int, #[trigger] spec_enc_settings(w)) implies false by {
                    lemma_settings_parts(b@, pos as int, w);
                }
            }
            return None;
        },
    };
    if !str_eq(s1.as_str(), "locale") {
        proof {
            assert forall|w: SettingsV|
                is_at(b@, pos as int, #[trigger] spec_enc_settings(w)) implies false by {
                lemma_settings_parts(b@, pos as int, w);
            }
        }
        return None;
    }
    let v1 = dec_text(b, p2);
    let (locale, p3) = match v1 {
        Some((locale, p3)) => (locale, p3),
        None => {
            proof {
                assert forall|w: SettingsV|
                    is_at(b@, pos as int, #[trigger] spec_enc_settings(w)) implies false by {
                    lemma_settings_parts(b@, pos as int, w);
                }
            }
            return None;
        },
    };
    let k2 = dec_text(b, p3);
    let (s2, p4) = match k2 {
        Some((s2, p4)) => (s2, p4),
        None => {
            proof {
                assert forall|w: SettingsV|
                    is_at(b@, pos as int, #[trigger] spec_enc_settings(w)) implies false by {
                    lemma_settings_parts(b@, pos as int, w);
                }
            }
            return None;
        },
    };
    if !str_eq(s2.as_str(), "theme") {
        proof {
            assert forall|w: SettingsV|
                is_at(b@, pos as int, #[trigger] spec_enc_settings(w)) implies false by {
                lemma_settings_parts(b@, pos as int, w);
            }
        }
        return None;
    }
    let v2 = dec_theme(b, p4);
    let (theme, p5) = match v2 {
        Some((theme, p5)) => (theme, p5),
        None => {
            proof {
                assert forall|w: SettingsV|
                    is_at(b@, pos as int, #[trigger] spec_enc_settings(w)) implies false by {
                    lemma_settings_parts(b@, pos as int, w);
                }
            }
            return None;
        },
    };
    let k3 = dec_text(b, p5);
    let (s3, p6) = match k3 {
        Some((s3, p6)) => (s3, p6),
        None => {
            proof {
                assert forall|w: SettingsV|
                    is_at(b@, pos as int, #[trigger] spec_enc_settings(w)) implies false by {
                    lemma_settings_parts(b@, pos as int, w);
                }
            }
            return None;
        },
    };
    if !str_eq(s3.as_str(), "https_proxy") {
        proof {
            assert forall|w: SettingsV|
                is_at(b@, pos as int, #[trigger] spec_enc_settings(w)) implies false by {
                lemma_settings_parts(b@, pos as int, w);
            }
        }
        return None;
    }
    let v3 = dec_opt_text(b, p6);
    let (proxy, p7) = match v3 {
        Some((proxy, p7)) => (proxy, p7),
        None => {
            proof {
                assert forall|w: SettingsV|
                    is_at(b@, pos as int, #[trigger] spec_enc_settings(w)) implies false by {
                    lemma_settings_parts(b@, pos as int, w);
                }
            }
            return None;
        },
    };
    let v = Settings { locale, theme, https_proxy: proxy };
    proof {
        let s1s = spec_map_head(3);
        let s2s = spec_text("locale"@);
        let s3s = spec_text(v@.locale);
        let s4s = spec_text("theme"@);
        let s5s = spec_enc_theme(v@.theme);
        let s6s = spec_text("https_proxy"@);
        let s7s = spec_enc_opt_text(v@.https_proxy);
        assert(is_at(b@, pos as int, s1s)) by {
            assert(b@.subrange(pos as int, p1 as int) =~= spec_map_head(3));
        }
        lemma_is_at_join(b@, pos as int, s1s, s2s);
        lemma_is_at_join(b@, pos as int, s1s + s2s, s3s);
        lemma_is_at_join(b@, pos as int, s1s + s2s + s3s, s4s);
        lemma_is_at_join(b@, pos as int, s1s + s2s + s3s + s4s, s5s);
        lemma_is_at_join(b@, pos as int, s1s + s2s + s3s + s4s + s5s, s6s);
        lemma_is_at_join(b@, pos as int, s1s + s2s + s3s + s4s + s5s + s6s, s7s);
        assert(is_at(b@, pos as int, spec_enc_settings(v@)));
        assert forall|w: SettingsV|
            is_at(b@, pos as int, #[trigger] spec_enc_settings(w)) implies (v@ == w && p7 == pos
            + spec_enc_settings(w).len()) by {
            lemma_settings_parts(b@, pos as int, w);
            assert(v@.locale == w.locale);
            assert(v@.theme == w.theme);
            assert(v@.https_proxy == w.https_proxy);
            assert(v@ =~= w);
        }
    }
    Some((v, p7))
}

} // verus!

verus! {

/// Reads a byte string of exactly `N` bytes at `pos`, as an array.
pub fn dec_bytes_arr<const N: usize>(b: &Vec<u8>, pos: usize) -> (r: Option<([u8; N], usize)>)
    ensures
        r matches Some((v, end)) ==> {
            &&& pos < end <= b@.len()
            &&& end - pos == spec_bytes(v@).len()
            &&& is_at(b@, pos as int, spec_bytes(v@))
        },
        forall|d: Seq<u8>|
            d.len() == N && is_at(b@, pos as int, #[trigger] spec_bytes(d)) ==> (r matches Some(
                (v, end),
            ) && v@ == d && end == pos + spec_bytes(d).len()),
{
    match dec_bytes(b, pos) {
        Some((v, end)) => {
            if v.len() != N {
                proof {
                    assert forall|d: Seq<u8>|
                        d.len() == N && is_at(b@, pos as int, #[trigger] spec_bytes(d)) implies
                    false by {}
                }
                return None;
            }
            let mut a = [0u8; N];
            let mut i: usize = 0;
            while i < N
                invariant
                    i <= N,
                    v@.len() == N,
                    a@.len() == N,
                    forall|j: int| 0 <= j < i ==> a@[j] == v@[j],
                decreases N - i,
            {
                a[i] = v[i];
                i += 1;
            }
            proof {
                assert(a@ =~= v@);
            }
            Some((a, end))
        },
        None => {
            proof {
                assert forall|d: Seq<u8>|
                    d.len() == N && is_at(b@, pos as int, #[trigger] spec_bytes(d)) implies
                false by {}
            }
            None
        },
    }
}

/// The encoding of `AppState`: a four-pair map.
pub open spec fn spec_enc_app_state(v: AppStateV) -> Seq<u8> {
    spec_map_head(4) + spec_text("os_arch"@) + spec_text(v.os_arch) + spec_text("os_platform"@)
        + spec_text(v.os_platform) + spec_text("settings"@) + spec_enc_settings(v.settings)
        + spec_text("seed"@) + spec_bytes(v.seed)
}

/// Positions of the parts of an encoded `AppState` within a buffer.
proof fn lemma_app_state_parts(b: Seq<u8>, pos: int, w: AppStateV)
    requires
        is_at(b, pos, spec_enc_app_state(w)),
    ensures
        is_at(b, pos, spec_map_head(4)),
        is_at(b, pos + 1, spec_text("os_arch"@)),
        is_at(b, pos + 1 + spec_text("os_arch"@).len(), spec_text(w.os_arch)),
        is_at(
            b,
            pos + 1 + spec_text("os_arch"@).len() + spec_text(w.os_arch).len(),
            spec_text("os_platform"@),
        ),
        is_at(
            b,
            pos + 1 + spec_text("os_arch"@).len() + spec_text(w.os_arch).len() + spec_text(
                "os_platform"@,
            ).len(),
            spec_text(w.os_platform),
        ),
        is_at(
            b,
            pos + 1 + spec_text("os_arch"@).len() + spec_text(w.os_arch).len() + spec_text(
                "os_platform"@,
            ).len() + spec_text(w.os_platform).len(),
            spec_text("settings"@),
        ),
        is_at(
            b,
            pos + 1 + spec_text("os_arch"@).len() + spec_text(w.os_arch).len() + spec_text(
                "os_platform"@,
            ).len() + spec_text(w.os_platform).len() + spec_text("settings"@).len(),
            spec_enc_settings(w.settings),
        ),
        is_at(
            b,
            pos + 1 + spec_text("os_arch"@).len() + spec_text(w.os_arch).len() + spec_text(
                "os_platform"@,
            ).len() + spec_text(w.os_platform).len() + spec_text("settings"@).len()
                + spec_enc_settings(w.settings).len(),
            spec_text("seed"@),
        ),
        is_at(
            b,
            pos + 1 + spec_text("os_arch"@).len() + spec_text(w.os_arch).len() + spec_text(
                "os_platform"@,
            ).len() + spec_text(w.os_platform).len() + spec_text("settings"@).len()
                + spec_enc_settings(w.settings).len() + spec_text("seed"@).len(),
            spec_bytes(w.seed),
        ),
{
    let s1 = spec_map_head(4);
    let s2 = spec_text("os_arch"@);
    let s3 = spec_text(w.os_arch);
    let s4 = spec_text("os_platform"@);
    let s5 = spec_text(w.os_platform);
    let s6 = spec_text("settings"@);
    let s7 = spec_enc_settings(w.settings);
    let s8 = spec_text("seed"@);
    let s9 = spec_bytes(w.seed);
    lemma_is_at_concat(b, pos, s1 + s2 + s3 + s4 + s5 + s6 + s7 + s8, s9);
    lemma_is_at_concat(b, pos, s1 + s2 + s3 + s4 + s5 + s6 + s7, s8);
    lemma_is_at_concat(b, pos, s1 + s2 + s3 + s4 + s5 + s6, s7);
    lemma_is_at_concat(b, pos, s1 + s2 + s3 + s4 + s5, s6);
    lemma_is_at_concat(b, pos, s1 + s2 + s3 + s4, s5);
    lemma_is_at_concat(b, pos, s1 + s2 + s3, s4);
    lemma_is_at_concat(b, pos, s1 + s2, s3);
    lemma_is_at_concat(b, pos, s1, s2);
    assert(s1.len() == 1);
}

/// Appends the encoding of `AppState`.
pub fn enc_app_state(out: &mut Vec<u8>, v: &AppState)
    ensures
        final(out)@ =~= old(out)@ + spec_enc_app_state(v@),
{
    enc_map_head(out, 4);
    enc_text(out, "os_arch");
    enc_text(out, v.os_arch.as_str());
    enc_text(out, "os_platform");
    enc_text(out, v.os_platform.as_str());
    enc_text(out, "settings");
    enc_settings(out, &v.settings);
    enc_text(out, "seed");
    enc_bytes(out, v.seed.0.as_slice());
}

/// Reads an `AppState` at `pos`.
#[verifier::spinoff_prover]
#[verifier::rlimit(100)]
pub fn dec_app_state(b: &Vec<u8>, pos: usize) -> (r: Option<(AppState, usize)>)
    ensures
        r matches Some((v, end)) ==> {
            &&& pos < end <= b@.len()
            &&& end - pos == spec_enc_app_state(v@).len()
            &&& is_at(b@, pos as int, spec_enc_app_state(v@))
        },
        forall|w: AppStateV|
            w.wf() && is_at(b@, pos as int, #[trigger] spec_enc_app_state(w)) ==> (r matches Some(
                (v, end),
            ) && v@ == w && end == pos + spec_enc_app_state(w).len()),
{
    proof {
        reveal_strlit("os_arch");
        reveal_strlit("os_platform");
        reveal_strlit("settings");
        reveal_strlit("seed");
    }
    let r1 = dec_map_head(b, pos);
    let p1 = match r1 {
        Some((n1, p1)) if n1 == 4 => p1,
        _ => {
            proof {
                assert forall|w: AppStateV|
                    w.wf() && is_at(b@, pos as int, #[trigger] spec_enc_app_state(w)) implies false by {
                    lemma_app_state_parts(b@, pos as int, w);
                }
            }
            return None;
        },
    };
    let k1 = dec_text(b, p1);
    let (s1, p2) = match k1 {
        Some((s1, p2)) => (s1, p2),
        None => {
            proof {
                assert forall|w: AppStateV|
                    w.wf() && is_at(b@, pos as int, #[trigger] spec_enc_app_state(w)) implies false by {
                    lemma_app_state_parts(b@, pos as int, w);
                }
            }
            return None;
        },
    };
    if !str_eq(s1.as_str(), "os_arch") {
        proof {
            assert forall|w: AppStateV|
                w.wf() && is_at(b@, pos as int, #[trigger] spec_enc_app_state(w)) implies false by {
                lemma_app_state_parts(b@, pos as int, w);
            }
        }
        return None;
    }
    let v1 = dec_text(b, p2);
    let (os_arch, p3) = match v1 {
        Some((os_arch, p3)) => (os_arch, p3),
        None => {
            proof {
                assert forall|w: AppStateV|
                    w.wf() && is_at(b@, pos as int, #[trigger] spec_enc_app_state(w)) implies false by {
                    lemma_app_state_parts(b@, pos as int, w);
                }
            }
            return None;
        },
    };
    let k2 = dec_text(b, p3);
    let (s2, p4) = match k2 {
        Some((s2, p4)) => (s2, p4),
        None => {
            proof {
                assert forall|w: AppStateV|
                    w.wf() && is_at(b@, pos as int, #[trigger] spec_enc_app_state(w)) implies false by {
                    lemma_app_state_parts(b@, pos as int, w);
                }
            }
            return None;
        },
    };
    if !str_eq(s2.as_str(), "os_platform") {
        proof {
            assert forall|w: AppStateV|
                w.wf() && is_at(b@, pos as int, #[trigger] spec_enc_app_state(w)) implies false by {
                lemma_app_state_parts(b@, pos as int, w);
            }
        }
        return None;
    }
    let v2 = dec_text(b, p4);
    let (os_platform, p5) = match v2 {
        Some((os_platform, p5)) => (os_platform, p5),
        None => {
            proof {
                assert forall|w: AppStateV|
                    w.wf() && is_at(b@, pos as int, #[trigger] spec_enc_app_state(w)) implies false by {
                    lemma_app_state_parts(b@, pos as int, w);
                }
            }
            return None;
        },
    };
    let k3 = dec_text(b, p5);
    let (s3, p6) = match k3 {
        Some((s3, p6)) => (s3, p6),
        None => {
            proof {
                assert forall|w: AppStateV|
                    w.wf() && is_at(b@, pos as int, #[trigger] spec_enc_app_state(w)) implies false by {
                    lemma_app_state_parts(b@, pos as int, w);
                }
            }
            return None;
        },
    };
    if !str_eq(s3.as_str(), "settings") {
        proof {
            assert forall|w: AppStateV|
                w.wf() && is_at(b@, pos as int, #[trigger] spec_enc_app_state(w)) implies false by {
                lemma_app_state_parts(b@, pos as int, w);
            }
        }
        return None;
    }
    let v3 = dec_settings(b, p6);
    let (settings, p7) = match v3 {
        Some((settings, p7)) => (settings, p7),
        None => {
            proof {
                assert forall|w: AppStateV|
                    w.wf() && is_at(b@, pos as int, #[trigger] spec_enc_app_state(w)) implies false by {
                    lemma_app_state_parts(b@, pos as int, w);
                }
            }
            return None;
        },
    };
    let k4 = dec_text(b, p7);
    let (s4, p8) = match k4 {
        Some((s4, p8)) => (s4, p8),
        None => {
            proof {
                assert forall|w: AppStateV|
                    w.wf() && is_at(b@, pos as int, #[trigger] spec_enc_app_state(w)) implies false by {
                    lemma_app_state_parts(b@, pos as int, w);
                }
            }
            return None;
        },
    };
    if !str_eq(s4.as_str(), "seed") {
        proof {
            assert forall|w: AppStateV|
                w.wf() && is_at(b@, pos as int, #[trigger] spec_enc_app_state(w)) implies false by {
                lemma_app_state_parts(b@, pos as int, w);
            }
        }
        return None;
    }
    let v4 = dec_bytes_arr::<32>(b, p8);
    let (seed, p9) = match v4 {
        Some((seed, p9)) => (seed, p9),
        None => {
            proof {
                assert forall|w: AppStateV|
                    w.wf() && is_at(b@, pos as int, #[trigger] spec_enc_app_state(w)) implies false by {
                    lemma_app_state_parts(b@, pos as int, w);
                    assert(w.seed.len() == 32);
                }
            }
            return None;
        },
    };
    let v = AppState { os_arch, os_platform, settings, seed: SensitiveData(seed) };
    proof {
        let s1s = spec_map_head(4);
        let s2s = spec_text("os_arch"@);
        let s3s = spec_text(v@.os_arch);
        let s4s = spec_text("os_platform"@);
        let s5s = spec_text(v@.os_platform);
        let s6s = spec_text("settings"@);
        let s7s = spec_enc_settings(v@.settings);
        let s8s = spec_text("seed"@);
        let s9s = spec_bytes(v@.seed);
        assert(is_at(b@, pos as int, s1s)) by {
            assert(b@.subrange(pos as int, p1 as int) =~= spec_map_head(4));
        }
        lemma_is_at_join(b@, pos as int, s1s, s2s);
        lemma_is_at_join(b@, pos as int, s1s + s2s, s3s);
        lemma_is_at_join(b@, pos as int, s1s + s2s + s3s, s4s);
        lemma_is_at_join(b@, pos as int, s1s + s2s + s3s + s4s, s5s);
        lemma_is_at_join(b@, pos as int, s1s + s2s + s3s + s4s + s5s, s6s);
        lemma_is_at_join(b@, pos as int, s1s + s2s + s3s + s4s + s5s + s6s, s7s);
        lemma_is_at_join(b@, pos as int, s1s + s2s + s3s + s4s + s5s + s6s + s7s, s8s);
        lemma_is_at_join(b@, pos as int, s1s + s2s + s3s + s4s + s5s + s6s + s7s + s8s, s9s);
        assert(is_at(b@, pos as int, spec_enc_app_state(v@)));
        assert forall|w: AppStateV|
            w.wf() && is_at(b@, pos as int, #[trigger] spec_enc_app_state(w)) implies (v@ == w
            && p9 == pos + spec_enc_app_state(w).len()) by {
            lemma_app_state_parts(b@, pos as int, w);
            assert(w.seed.len() == 32);
            assert(v@.settings == w.settings);
            assert(v@ =~= w);
        }
    }
    Some((v, p9))
}

} // verus!

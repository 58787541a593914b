//! The deep-link sign-in protocol: building the outbound sign-in URL,
//! parsing inbound callback URLs, the CBOR payloads they carry, and the
//! protocol state machine that drives a sign-in attempt from start to a
//! verified identity.
//!
//! The outbound URL is `<endpoint>?os=<os>&action=SignIn&next_url=<url>`
//! with the CBOR-encoded request in the fragment as base64url — fragments
//! are not forwarded to servers by browsers, which keeps the payload out of
//! request logs.

use vstd::prelude::*;

use crate::b64::{all_ascii, ascii_chars, b64_decode, b64_encode, lemma_ascii_utf8, lemma_b64_ascii,
    spec_b64};
use crate::cbor::{
    dec_bytes, dec_map_head, dec_text, dec_uint, enc_bytes, enc_map_head, enc_text, enc_uint,
    is_at, lemma_is_at_concat, spec_bytes, spec_map_head, spec_text, spec_uint, string_from_utf8,
};
use crate::codec::{lemma_is_at_join, str_eq};
use crate::delegation::chain_valid;
use crate::identity::{ActiveIdentityV, IdentityHolder, IdentityInfo, spec_is_authenticated};
use crate::keys::spec_session_pubkey;
use crate::model::{
    links_view, AppState, InternetIdentityAuth, SecretState, SecretStateV, SignedDelegation,
    SignedDelegationV,
};
use crate::secret::{dec_links, enc_links, spec_enc_links};
use crate::utils::{rand_bytes, SensitiveData};
use crate::Error;

verus! {

/// An unreserved URL byte: letters, digits, `-`, `.`, `_`, `~`.
pub open spec fn is_unreserved(b: u8) -> bool {
    ||| 0x41 <= b <= 0x5a
    ||| 0x61 <= b <= 0x7a
    ||| 0x30 <= b <= 0x39
    ||| b == 0x2d
    ||| b == 0x2e
    ||| b == 0x5f
    ||| b == 0x7e
}

/// The uppercase hex digit for a value below sixteen.
pub open spec fn hex_digit(v: u8) -> u8
    recommends
        v < 16,
{
    if v < 10 {
        (0x30 + v) as u8
    } else {
        (0x41 + (v - 10)) as u8
    }
}

/// Percent-encoding of a byte string: unreserved bytes stand for
/// themselves, every other byte becomes `%` and two hex digits.
pub open spec fn spec_pct(b: Seq<u8>) -> Seq<u8>
    decreases b.len(),
{
    if b.len() == 0 {
        Seq::empty()
    } else {
        (if is_unreserved(b[0]) {
            seq![b[0]]
        } else {
            seq![0x25u8, hex_digit(b[0] / 16), hex_digit(b[0] % 16)]
        }) + spec_pct(b.drop_first())
    }
}

/// Percent-encoding distributes over concatenation.
pub proof fn lemma_pct_append(p: Seq<u8>, q: Seq<u8>)
    ensures
        spec_pct(p + q) == spec_pct(p) + spec_pct(q),
    decreases p.len(),
{
    if p.len() == 0 {
        assert(p + q =~= q);
        assert(spec_pct(p) + spec_pct(q) =~= spec_pct(q));
    } else {
        let c = p + q;
        assert(c[0] == p[0]);
        assert(c.drop_first() =~= p.drop_first() + q);
        lemma_pct_append(p.drop_first(), q);
        assert(spec_pct(c) =~= spec_pct(p) + spec_pct(q));
    }
}

/// Percent-encoded output is ASCII.
pub proof fn lemma_pct_ascii(b: Seq<u8>)
    ensures
        all_ascii(spec_pct(b)),
    decreases b.len(),
{
    if b.len() > 0 {
        lemma_pct_ascii(b.drop_first());
    }
}

/// The value of a hex digit, if the byte is one.
pub open spec fn spec_hex_val(b: u8) -> Option<u8> {
    if 0x30 <= b <= 0x39 {
        Some((b - 0x30) as u8)
    } else if 0x41 <= b <= 0x46 {
        Some((b - 0x41 + 10) as u8)
    } else if 0x61 <= b <= 0x66 {
        Some((b - 0x61 + 10) as u8)
    } else {
        None
    }
}

/// Lenient percent-decoding: a `%` followed by two hex digits becomes the
/// byte they spell; everything else passes through unchanged.
pub open spec fn spec_pct_dec(b: Seq<u8>) -> Seq<u8>
    decreases b.len(),
{
    if b.len() == 0 {
        Seq::empty()
    } else if b[0] == 0x25 && b.len() >= 3 && spec_hex_val(b[1]) is Some && spec_hex_val(
        b[2],
    ) is Some {
        seq![(spec_hex_val(b[1]).unwrap() * 16 + spec_hex_val(b[2]).unwrap()) as u8] + spec_pct_dec(
            b.skip(3),
        )
    } else {
        seq![b[0]] + spec_pct_dec(b.drop_first())
    }
}

/// Decoding inverts encoding.
pub proof fn lemma_pct_roundtrip(d: Seq<u8>)
    ensures
        spec_pct_dec(spec_pct(d)) == d,
    decreases d.len(),
{
    if d.len() == 0 {
        assert(spec_pct_dec(spec_pct(d)) =~= d);
    } else {
        let b0 = d[0];
        lemma_pct_roundtrip(d.drop_first());
        if is_unreserved(b0) {
            let e = spec_pct(d);
            assert(e == seq![b0] + spec_pct(d.drop_first()));
            assert(e[0] == b0);
            assert(b0 != 0x25);
            assert(e.drop_first() =~= spec_pct(d.drop_first()));
            assert(spec_pct_dec(e) =~= d);
        } else {
            let e = spec_pct(d);
            let h1 = hex_digit(b0 / 16);
            let h2 = hex_digit(b0 % 16);
            assert(e == seq![0x25u8, h1, h2] + spec_pct(d.drop_first()));
            assert(e[0] == 0x25 && e[1] == h1 && e[2] == h2);
            assert(spec_hex_val(h1) == Some((b0 / 16) as u8));
            assert(spec_hex_val(h2) == Some((b0 % 16) as u8));
            assert((b0 / 16) * 16 + b0 % 16 == b0);
            assert(e.skip(3) =~= spec_pct(d.drop_first()));
            assert(spec_pct_dec(e) =~= d);
        }
    }
}

/// Percent-encodes a byte string.
pub fn pct_encode(v: &Vec<u8>) -> (r: Vec<u8>)
    ensures
        r@ == spec_pct(v@),
{
    let n = v.len();
    let mut out: Vec<u8> = Vec::new();
    let mut i: usize = 0;
    proof {
        assert(v@.take(0) =~= Seq::<u8>::empty());
        assert(spec_pct(v@.take(0)) =~= Seq::<u8>::empty());
    }
    while i < n
        invariant
            i <= n,
            n == v@.len(),
            out@ == spec_pct(v@.take(i as int)),
        decreases n - i,
    {
        let b = v[i];
        if (0x41 <= b && b <= 0x5a) || (0x61 <= b && b <= 0x7a) || (0x30 <= b && b <= 0x39) || b
            == 0x2d || b == 0x2e || b == 0x5f || b == 0x7e {
            out.push(b);
            proof {
                lemma_pct_append(v@.take(i as int), seq![b]);
                assert(v@.take(i + 1) =~= v@.take(i as int) + seq![b]);
                assert(seq![b].drop_first() =~= Seq::<u8>::empty());
                assert(spec_pct(Seq::<u8>::empty()) =~= Seq::<u8>::empty());
                assert(spec_pct(seq![b]) =~= seq![b]);
                assert(out@ =~= spec_pct(v@.take(i + 1)));
            }
        } else {
            out.push(0x25);
            if b / 16 < 10 {
                out.push(0x30 + b / 16);
            } else {
                out.push(0x41 + (b / 16 - 10));
            }
            if b % 16 < 10 {
                out.push(0x30 + b % 16);
            } else {
                out.push(0x41 + (b % 16 - 10));
            }
            proof {
                lemma_pct_append(v@.take(i as int), seq![b]);
                assert(v@.take(i + 1) =~= v@.take(i as int) + seq![b]);
                assert(seq![b].drop_first() =~= Seq::<u8>::empty());
                assert(spec_pct(Seq::<u8>::empty()) =~= Seq::<u8>::empty());
                assert(spec_pct(seq![b]) =~= seq![0x25u8, hex_digit(b / 16), hex_digit(b % 16)]);
                assert(out@ =~= spec_pct(v@.take(i + 1)));
            }
        }
        i += 1;
    }
    proof {
        assert(v@.take(n as int) =~= v@);
    }
    out
}

/// Percent-decodes a byte string, leniently.
pub fn pct_decode(v: &Vec<u8>) -> (r: Vec<u8>)
    ensures
        r@ == spec_pct_dec(v@),
{
    let n = v.len();
    let mut out: Vec<u8> = Vec::new();
    let mut i: usize = 0;
    proof {
        assert(v@.skip(0) =~= v@);
        assert(out@ + spec_pct_dec(v@) =~= spec_pct_dec(v@));
    }
    while i < n
        invariant
            i <= n,
            n == v@.len(),
            spec_pct_dec(v@) == out@ + spec_pct_dec(v@.skip(i as int)),
        decreases n - i,
    {
        let b = v[i];
        proof {
            let t = v@.skip(i as int);
            assert(t[0] == b);
            assert(t.drop_first() =~= v@.skip(i + 1));
            if t.len() >= 3 {
                assert(t[1] == v@[i + 1]);
                assert(t[2] == v@[i + 2]);
                assert(t.skip(3) =~= v@.skip(i + 3));
            }
        }
        if b == 0x25 && n - i >= 3 {
            let c1 = hex_val(v[i + 1]);
            let c2 = hex_val(v[i + 2]);
            match (c1, c2) {
                (Some(h1), Some(h2)) => {
                    out.push(h1 * 16 + h2);
                    i += 3;
                },
                _ => {
                    out.push(b);
                    i += 1;
                },
            }
        } else {
            out.push(b);
            i += 1;
        }
        proof {
            assert(spec_pct_dec(v@) =~= out@ + spec_pct_dec(v@.skip(i as int)));
        }
    }
    proof {
        assert(v@.skip(n as int).len() == 0);
        assert(spec_pct_dec(v@) =~= out@);
    }
    out
}

/// The executable hex-digit table.
fn hex_val(b: u8) -> (r: Option<u8>)
    ensures
        r == spec_hex_val(b),
{
    if 0x30 <= b && b <= 0x39 {
        Some(b - 0x30)
    } else if 0x41 <= b && b <= 0x46 {
        Some(b - 0x41 + 10)
    } else if 0x61 <= b && b <= 0x66 {
        Some(b - 0x61 + 10)
    } else {
        None
    }
}

/// Splits at the first occurrence of `c`: the part before (which does not
/// contain `c`) and the part after.
pub fn split_once(v: &Vec<u8>, c: u8) -> (r: Option<(Vec<u8>, Vec<u8>)>)
    ensures
        r matches Some((before, after)) ==> {
            &&& v@ == before@ + seq![c] + after@
            &&& !before@.contains(c)
        },
        r is None ==> !v@.contains(c),
{
    let n = v.len();
    let mut i: usize = 0;
    while i < n
        invariant
            i <= n,
            n == v@.len(),
            forall|j: int| 0 <= j < i ==> v@[j] != c,
        decreases n - i,
    {
        if v[i] == c {
            let before = vstd::slice::slice_to_vec(vstd::slice::slice_subrange(v.as_slice(), 0, i));
            let after = vstd::slice::slice_to_vec(
                vstd::slice::slice_subrange(v.as_slice(), i + 1, n),
            );
            proof {
                assert(before@ =~= v@.subrange(0, i as int));
                assert(after@ =~= v@.subrange(i + 1, n as int));
                assert(v@ =~= before@ + seq![c] + after@);
                assert forall|j: int| 0 <= j < before@.len() implies before@[j] != c by {
                    assert(before@[j] == v@[j]);
                }
                assert(!before@.contains(c));
            }
            return Some((before, after));
        }
        i += 1;
    }
    proof {
        if v@.contains(c) {
            let j = choose|j: int| 0 <= j < v@.len() && v@[j] == c;
            assert(false);
        }
    }
    None
}

/// Converts ASCII bytes into the string made of the same characters.
pub fn ascii_to_string(v: Vec<u8>) -> (r: Option<String>)
    ensures
        all_ascii(v@) ==> (r matches Some(s) && s@ == ascii_chars(v@)),
{
    proof {
        if all_ascii(v@) {
            lemma_ascii_utf8(v@);
            broadcast use vstd::utf8::encode_utf8_decode_utf8;

            assert(vstd::utf8::decode_utf8(vstd::utf8::encode_utf8(ascii_chars(v@))) == ascii_chars(
                v@,
            ));
        }
    }
    string_from_utf8(v)
}

/// The outbound deep-link URL: the endpoint, the three query parameters
/// percent-encoded, and the payload (if any) in the fragment as base64url.
pub open spec fn spec_deeplink_url(
    endpoint: Seq<char>,
    os: Seq<char>,
    action: Seq<char>,
    next_url: Seq<char>,
    payload: Option<Seq<u8>>,
) -> Seq<char> {
    endpoint + "?os="@ + ascii_chars(spec_pct(vstd::utf8::encode_utf8(os))) + "&action="@
        + ascii_chars(spec_pct(vstd::utf8::encode_utf8(action))) + "&next_url="@ + ascii_chars(
        spec_pct(vstd::utf8::encode_utf8(next_url)),
    ) + (match payload {
        None => Seq::<char>::empty(),
        Some(p) => "#"@ + ascii_chars(spec_b64(p)),
    })
}

/// An outbound sign-in request: the parameters of the URL handed to the
/// browser.
pub struct DeepLinkRequest {
    pub os: String,
    pub action: String,
    pub next_url: String,
    pub payload: Option<Vec<u8>>,
}

impl DeepLinkRequest {
    /// Renders the request as a URL on the given endpoint.
    pub fn to_url(&self, endpoint: &str) -> (r: String)
        ensures
            r@ == spec_deeplink_url(
                endpoint@,
                self.os@,
                self.action@,
                self.next_url@,
                match self.payload {
                    Some(ref p) => Some(p@),
                    None => None,
                },
            ),
    {
        let mut url = String::from_str(endpoint);
        url.append("?os=");
        append_pct(&mut url, self.os.as_str());
        url.append("&action=");
        append_pct(&mut url, self.action.as_str());
        url.append("&next_url=");
        append_pct(&mut url, self.next_url.as_str());
        match &self.payload {
            None => {},
            Some(p) => {
                url.append("#");
                let frag = b64_encode(p);
                proof {
                    lemma_b64_ascii(p@);
                }
                match ascii_to_string(frag) {
                    Some(s) => url.append(s.as_str()),
                    None => {},
                }
            },
        }
        url
    }
}

/// Appends the percent-encoding of `s`'s UTF-8 bytes to `out`.
fn append_pct(out: &mut String, s: &str)
    ensures
        final(out)@ == old(out)@ + ascii_chars(spec_pct(vstd::utf8::encode_utf8(s@))),
{
    let bytes = s.as_bytes_vec();
    let enc = pct_encode(&bytes);
    proof {
        lemma_pct_ascii(bytes@);
    }
    match ascii_to_string(enc) {
        Some(e) => out.append(e.as_str()),
        None => {
            proof {
                assert(false);
            }
        },
    }
}


/// The payload of an outbound sign-in request: the session public key the
/// identity provider should delegate to, and the requested delegation
/// lifetime in milliseconds.
pub struct SignInRequest {
    pub session_pubkey: Vec<u8>,
    pub max_time_to_live: u64,
}

/// The view of `SignInRequest`.
pub struct SignInRequestV {
    pub session_pubkey: Seq<u8>,
    pub max_time_to_live: u64,
}

impl View for SignInRequest {
    type V = SignInRequestV;

    open spec fn view(&self) -> SignInRequestV {
        SignInRequestV {
            session_pubkey: self.session_pubkey@,
            max_time_to_live: self.max_time_to_live,
        }
    }
}

/// The payload of an inbound sign-in callback: the user's root public key,
/// the delegation chain, and how and where the user authenticated.
pub struct SignInResponse {
    pub user_pubkey: Vec<u8>,
    pub delegations: Vec<SignedDelegation>,
    pub authn_method: String,
    pub origin: String,
}

/// The view of `SignInResponse`.
pub struct SignInResponseV {
    pub user_pubkey: Seq<u8>,
    pub delegations: Seq<SignedDelegationV>,
    pub authn_method: Seq<char>,
    pub origin: Seq<char>,
}

impl SignInResponseV {
    /// Structural facts every real `SignInResponse` satisfies.
    pub open spec fn wf(self) -> bool {
        self.delegations.len() <= u64::MAX
    }
}

impl View for SignInResponse {
    type V = SignInResponseV;

    open spec fn view(&self) -> SignInResponseV {
        SignInResponseV {
            user_pubkey: self.user_pubkey@,
            delegations: links_view(self.delegations@),
            authn_method: self.authn_method@,
            origin: self.origin@,
        }
    }
}


/// The encoding of `SignInRequest`: a 2-pair map.
pub open spec fn spec_enc_sign_in_request(v: SignInRequestV) -> Seq<u8> {
    spec_map_head(2) + spec_text("s"@) + spec_bytes(v.session_pubkey) + spec_text("m"@) + spec_uint(v.max_time_to_live)
}

/// Positions of the parts of an encoded `SignInRequest` within a buffer.
proof fn lemma_sign_in_request_parts(b: Seq<u8>, pos: int, w: SignInRequestV)
    requires
        is_at(b, pos, spec_enc_sign_in_request(w)),
    ensures
        is_at(b, pos, spec_map_head(2)),
        is_at(b, pos + 1, spec_text("s"@)),
        is_at(b, pos + 1 + spec_text("s"@).len(), spec_bytes(w.session_pubkey)),
        is_at(b, pos + 1 + spec_text("s"@).len() + spec_bytes(w.session_pubkey).len(), spec_text("m"@)),
        is_at(b, pos + 1 + spec_text("s"@).len() + spec_bytes(w.session_pubkey).len() + spec_text("m"@).len(), spec_uint(w.max_time_to_live)),
{
    let s1 = spec_map_head(2);
    let s2 = spec_text("s"@);
    let s3 = spec_bytes(w.session_pubkey);
    let s4 = spec_text("m"@);
    let s5 = spec_uint(w.max_time_to_live);
    lemma_is_at_concat(b, pos, s1 + s2 + s3 + s4, s5);
    lemma_is_at_concat(b, pos, s1 + s2 + s3, s4);
    lemma_is_at_concat(b, pos, s1 + s2, s3);
    lemma_is_at_concat(b, pos, s1, s2);
    assert(s1.len() == 1);
}

/// Appends the encoding of `SignInRequest`.
pub fn enc_sign_in_request(out: &mut Vec<u8>, v: &SignInRequest)
    ensures
        final(out)@ =~= old(out)@ + spec_enc_sign_in_request(v@),
{
    enc_map_head(out, 2);
    enc_text(out, "s");
    enc_bytes(out, v.session_pubkey.as_slice());
    enc_text(out, "m");
    enc_uint(out, v.max_time_to_live);
}

/// Reads a `SignInRequest` at `pos`.
#[verifier::spinoff_prover]
#[verifier::rlimit(100)]
pub fn dec_sign_in_request(b: &Vec<u8>, pos: usize) -> (r: Option<(SignInRequest, usize)>)
    ensures
        r matches Some((v, end)) ==> {
            &&& pos < end <= b@.len()
            &&& end - pos == spec_enc_sign_in_request(v@).len()
            &&& is_at(b@, pos as int, spec_enc_sign_in_request(v@))
        },
        forall|w: SignInRequestV|
            is_at(b@, pos as int, #[trigger] spec_enc_sign_in_request(w)) ==> (r matches Some(
                (v, end),
            ) && v@ == w && end == pos + spec_enc_sign_in_request(w).len()),
{
    proof {
        reveal_strlit("s");
        reveal_strlit("m");
    }
    let r1 = dec_map_head(b, pos);
    let p1 = match r1 {
        Some((n1, p1)) if n1 == 2 => p1,
        _ => {
            proof {
                assert forall|w: SignInRequestV|
                    is_at(b@, pos as int, #[trigger] spec_enc_sign_in_request(w)) implies false by {
                    lemma_sign_in_request_parts(b@, pos as int, w);
                }
            }
            return None;
        },
    };
    let k1 = dec_text(b, p1);
    let (ks1, p2) = match k1 {
        Some((ks1, q)) => (ks1, q),
        None => {
            proof {
                assert forall|w: SignInRequestV|
                    is_at(b@, pos as int, #[trigger] spec_enc_sign_in_request(w)) implies false by {
                    lemma_sign_in_request_parts(b@, pos as int, w);
                }
            }
            return None;
        },
    };
    if !str_eq(ks1.as_str(), "s") {
        proof {
            assert forall|w: SignInRequestV|
                is_at(b@, pos as int, #[trigger] spec_enc_sign_in_request(w)) implies false by {
                lemma_sign_in_request_parts(b@, pos as int, w);
            }
        }
        return None;
    }
    let r_session_pubkey = dec_bytes(b, p2);
    let (session_pubkey, p3) = match r_session_pubkey {
        Some((session_pubkey, q)) => (session_pubkey, q),
        None => {
            proof {
                assert forall|w: SignInRequestV|
                    is_at(b@, pos as int, #[trigger] spec_enc_sign_in_request(w)) implies false by {
                    lemma_sign_in_request_parts(b@, pos as int, w);
                }
            }
            return None;
        },
    };
    let k2 = dec_text(b, p3);
    let (ks2, p4) = match k2 {
        Some((ks2, q)) => (ks2, q),
        None => {
            proof {
                assert forall|w: SignInRequestV|
                    is_at(b@, pos as int, #[trigger] spec_enc_sign_in_request(w)) implies false by {
                    lemma_sign_in_request_parts(b@, pos as int, w);
                }
            }
            return None;
        },
    };
    if !str_eq(ks2.as_str(), "m") {
        proof {
            assert forall|w: SignInRequestV|
                is_at(b@, pos as int, #[trigger] spec_enc_sign_in_request(w)) implies false by {
                lemma_sign_in_request_parts(b@, pos as int, w);
            }
        }
        return None;
    }
    let r_max_time_to_live = dec_uint(b, p4);
    let (max_time_to_live, p5) = match r_max_time_to_live {
        Some((max_time_to_live, q)) => (max_time_to_live, q),
        None => {
            proof {
                assert forall|w: SignInRequestV|
                    is_at(b@, pos as int, #[trigger] spec_enc_sign_in_request(w)) implies false by {
                    lemma_sign_in_request_parts(b@, pos as int, w);
                }
            }
            return None;
        },
    };
    let v = SignInRequest { session_pubkey, max_time_to_live };
    proof {
        let s1s = spec_map_head(2);
        let s2s = spec_text("s"@);
        let s3s = spec_bytes(v@.session_pubkey);
        let s4s = spec_text("m"@);
        let s5s = spec_uint(v@.max_time_to_live);
        assert(is_at(b@, pos as int, s1s)) by {
            assert(b@.subrange(pos as int, p1 as int) =~= spec_map_head(2));
        }
        lemma_is_at_join(b@, pos as int, s1s, s2s);
        lemma_is_at_join(b@, pos as int, s1s + s2s, s3s);
        lemma_is_at_join(b@, pos as int, s1s + s2s + s3s, s4s);
        lemma_is_at_join(b@, pos as int, s1s + s2s + s3s + s4s, s5s);
        assert(is_at(b@, pos as int, spec_enc_sign_in_request(v@)));
        assert forall|w: SignInRequestV|
            is_at(b@, pos as int, #[trigger] spec_enc_sign_in_request(w)) implies (v@ == w
            && p5 == pos + spec_enc_sign_in_request(w).len()) by {
            lemma_sign_in_request_parts(b@, pos as int, w);
            assert(v@ =~= w);
        }
    }
    Some((v, p5))
}


/// The encoding of `SignInResponse`: a 4-pair map.
pub open spec fn spec_enc_sign_in_response(v: SignInResponseV) -> Seq<u8> {
    spec_map_head(4) + spec_text("u"@) + spec_bytes(v.user_pubkey) + spec_text("d"@) + spec_enc_links(v.delegations) + spec_text("a"@) + spec_text(v.authn_method) + spec_text("o"@) + spec_text(v.origin)
}

/// Positions of the parts of an encoded `SignInResponse` within a buffer.
proof fn lemma_sign_in_response_parts(b: Seq<u8>, pos: int, w: SignInResponseV)
    requires
        is_at(b, pos, spec_enc_sign_in_response(w)),
    ensures
        is_at(b, pos, spec_map_head(4)),
        is_at(b, pos + 1, spec_text("u"@)),
        is_at(b, pos + 1 + spec_text("u"@).len(), spec_bytes(w.user_pubkey)),
        is_at(b, pos + 1 + spec_text("u"@).len() + spec_bytes(w.user_pubkey).len(), spec_text("d"@)),
        is_at(b, pos + 1 + spec_text("u"@).len() + spec_bytes(w.user_pubkey).len() + spec_text("d"@).len(), spec_enc_links(w.delegations)),
        is_at(b, pos + 1 + spec_text("u"@).len() + spec_bytes(w.user_pubkey).len() + spec_text("d"@).len() + spec_enc_links(w.delegations).len(), spec_text("a"@)),
        is_at(b, pos + 1 + spec_text("u"@).len() + spec_bytes(w.user_pubkey).len() + spec_text("d"@).len() + spec_enc_links(w.delegations).len() + spec_text("a"@).len(), spec_text(w.authn_method)),
        is_at(b, pos + 1 + spec_text("u"@).len() + spec_bytes(w.user_pubkey).len() + spec_text("d"@).len() + spec_enc_links(w.delegations).len() + spec_text("a"@).len() + spec_text(w.authn_method).len(), spec_text("o"@)),
        is_at(b, pos + 1 + spec_text("u"@).len() + spec_bytes(w.user_pubkey).len() + spec_text("d"@).len() + spec_enc_links(w.delegations).len() + spec_text("a"@).len() + spec_text(w.authn_method).len() + spec_text("o"@).len(), spec_text(w.origin)),
{
    let s1 = spec_map_head(4);
    let s2 = spec_text("u"@);
    let s3 = spec_bytes(w.user_pubkey);
    let s4 = spec_text("d"@);
    let s5 = spec_enc_links(w.delegations);
    let s6 = spec_text("a"@);
    let s7 = spec_text(w.authn_method);
    let s8 = spec_text("o"@);
    let s9 = spec_text(w.origin);
    lemma_is_at_concat(b, pos, s1 + s2 + s3 + s4 + s5 + s6 + s7 + s8, s9);
    lemma_is_at_concat(b, pos, s1 + s2 + s3 + s4 + s5 + s6 + s7, s8);
    lemma_is_at_concat(b, pos, s1 + s2 + s3 + s4 + s5 + s6, s7);
    lemma_is_at_concat(b, pos, s1 + s2 + s3 + s4 + s5, s6);
    lemma_is_at_concat(b, pos, s1 + s2 + s3 + s4, s5);
    lemma_is_at_concat(b, pos, s1 + s2 + s3, s4);
    lemma_is_at_concat(b, pos, s1 + s2, s3);
    lemma_is_at_concat(b, pos, s1, s2);
    assert(s1.len() == 1);
}

/// Appends the encoding of `SignInResponse`.
pub fn enc_sign_in_response(out: &mut Vec<u8>, v: &SignInResponse)
    ensures
        final(out)@ =~= old(out)@ + spec_enc_sign_in_response(v@),
{
    enc_map_head(out, 4);
    enc_text(out, "u");
    enc_bytes(out, v.user_pubkey.as_slice());
    enc_text(out, "d");
    enc_links(out, &v.delegations);
    enc_text(out, "a");
    enc_text(out, v.authn_method.as_str());
    enc_text(out, "o");
    enc_text(out, v.origin.as_str());
}

/// Reads a `SignInResponse` at `pos`.
#[verifier::spinoff_prover]
#[verifier::rlimit(100)]
pub fn dec_sign_in_response(b: &Vec<u8>, pos: usize) -> (r: Option<(SignInResponse, usize)>)
    ensures
        r matches Some((v, end)) ==> {
            &&& pos < end <= b@.len()
            &&& end - pos == spec_enc_sign_in_response(v@).len()
            &&& is_at(b@, pos as int, spec_enc_sign_in_response(v@))
        },
        forall|w: SignInResponseV|
            w.wf() && is_at(b@, pos as int, #[trigger] spec_enc_sign_in_response(w)) ==> (r matches Some(
                (v, end),
            ) && v@ == w && end == pos + spec_enc_sign_in_response(w).len()),
{
    proof {
        reveal_strlit("u");
        reveal_strlit("d");
        reveal_strlit("a");
        reveal_strlit("o");
    }
    let r1 = dec_map_head(b, pos);
    let p1 = match r1 {
        Some((n1, p1)) if n1 == 4 => p1,
        _ => {
            proof {
                assert forall|w: SignInResponseV|
                    w.wf() && is_at(b@, pos as int, #[trigger] spec_enc_sign_in_response(w)) implies false by {
                    lemma_sign_in_response_parts(b@, pos as int, w);
                }
            }
            return None;
        },
    };
    let k1 = dec_text(b, p1);
    let (ks1, p2) = match k1 {
        Some((ks1, q)) => (ks1, q),
        None => {
            proof {
                assert forall|w: SignInResponseV|
                    w.wf() && is_at(b@, pos as int, #[trigger] spec_enc_sign_in_response(w)) implies false by {
                    lemma_sign_in_response_parts(b@, pos as int, w);
                }
            }
            return None;
        },
    };
    if !str_eq(ks1.as_str(), "u") {
        proof {
            assert forall|w: SignInResponseV|
                w.wf() && is_at(b@, pos as int, #[trigger] spec_enc_sign_in_response(w)) implies false by {
                lemma_sign_in_response_parts(b@, pos as int, w);
            }
        }
        return None;
    }
    let r_user_pubkey = dec_bytes(b, p2);
    let (user_pubkey, p3) = match r_user_pubkey {
        Some((user_pubkey, q)) => (user_pubkey, q),
        None => {
            proof {
                assert forall|w: SignInResponseV|
                    w.wf() && is_at(b@, pos as int, #[trigger] spec_enc_sign_in_response(w)) implies false by {
                    lemma_sign_in_response_parts(b@, pos as int, w);
                }
            }
            return None;
        },
    };
    let k2 = dec_text(b, p3);
    let (ks2, p4) = match k2 {
        Some((ks2, q)) => (ks2, q),
        None => {
            proof {
                assert forall|w: SignInResponseV|
                    w.wf() && is_at(b@, pos as int, #[trigger] spec_enc_sign_in_response(w)) implies false by {
                    lemma_sign_in_response_parts(b@, pos as int, w);
                }
            }
            return None;
        },
    };
    if !str_eq(ks2.as_str(), "d") {
        proof {
            assert forall|w: SignInResponseV|
                w.wf() && is_at(b@, pos as int, #[trigger] spec_enc_sign_in_response(w)) implies false by {
                lemma_sign_in_response_parts(b@, pos as int, w);
            }
        }
        return None;
    }
    let r_delegations = dec_links(b, p4);
    let (delegations, p5) = match r_delegations {
        Some((delegations, q)) => (delegations, q),
        None => {
            proof {
                assert forall|w: SignInResponseV|
                    w.wf() && is_at(b@, pos as int, #[trigger] spec_enc_sign_in_response(w)) implies false by {
                    lemma_sign_in_response_parts(b@, pos as int, w);
                }
            }
            return None;
        },
    };
    let k3 = dec_text(b, p5);
    let (ks3, p6) = match k3 {
        Some((ks3, q)) => (ks3, q),
        None => {
            proof {
                assert forall|w: SignInResponseV|
                    w.wf() && is_at(b@, pos as int, #[trigger] spec_enc_sign_in_response(w)) implies false by {
                    lemma_sign_in_response_parts(b@, pos as int, w);
                }
            }
            return None;
        },
    };
    if !str_eq(ks3.as_str(), "a") {
        proof {
            assert forall|w: SignInResponseV|
                w.wf() && is_at(b@, pos as int, #[trigger] spec_enc_sign_in_response(w)) implies false by {
                lemma_sign_in_response_parts(b@, pos as int, w);
            }
        }
        return None;
    }
    let r_authn_method = dec_text(b, p6);
    let (authn_method, p7) = match r_authn_method {
        Some((authn_method, q)) => (authn_method, q),
        None => {
            proof {
                assert forall|w: SignInResponseV|
                    w.wf() && is_at(b@, pos as int, #[trigger] spec_enc_sign_in_response(w)) implies false by {
                    lemma_sign_in_response_parts(b@, pos as int, w);
                }
            }
            return None;
        },
    };
    let k4 = dec_text(b, p7);
    let (ks4, p8) = match k4 {
        Some((ks4, q)) => (ks4, q),
        None => {
            proof {
                assert forall|w: SignInResponseV|
                    w.wf() && is_at(b@, pos as int, #[trigger] spec_enc_sign_in_response(w)) implies false by {
                    lemma_sign_in_response_parts(b@, pos as int, w);
                }
            }
            return None;
        },
    };
    if !str_eq(ks4.as_str(), "o") {
        proof {
            assert forall|w: SignInResponseV|
                w.wf() && is_at(b@, pos as int, #[trigger] spec_enc_sign_in_response(w)) implies false by {
                lemma_sign_in_response_parts(b@, pos as int, w);
            }
        }
        return None;
    }
    let r_origin = dec_text(b, p8);
    let (origin, p9) = match r_origin {
        Some((origin, q)) => (origin, q),
        None => {
            proof {
                assert forall|w: SignInResponseV|
                    w.wf() && is_at(b@, pos as int, #[trigger] spec_enc_sign_in_response(w)) implies false by {
                    lemma_sign_in_response_parts(b@, pos as int, w);
                }
            }
            return None;
        },
    };
    let v = SignInResponse { user_pubkey, delegations, authn_method, origin };
    proof {
        let s1s = spec_map_head(4);
        let s2s = spec_text("u"@);
        let s3s = spec_bytes(v@.user_pubkey);
        let s4s = spec_text("d"@);
        let s5s = spec_enc_links(v@.delegations);
        let s6s = spec_text("a"@);
        let s7s = spec_text(v@.authn_method);
        let s8s = spec_text("o"@);
        let s9s = spec_text(v@.origin);
        assert(is_at(b@, pos as int, s1s)) by {
            assert(b@.subrange(pos as int, p1 as int) =~= spec_map_head(4));
        }
        lemma_is_at_join(b@, pos as int, s1s, s2s);
        lemma_is_at_join(b@, pos as int, s1s + s2s, s3s);
        lemma_is_at_join(b@, pos as int, s1s + s2s + s3s, s4s);
        lemma_is_at_join(b@, pos as int, s1s + s2s + s3s + s4s, s5s);
        lemma_is_at_join(b@, pos as int, s1s + s2s + s3s + s4s + s5s, s6s);
        lemma_is_at_join(b@, pos as int, s1s + s2s + s3s + s4s + s5s + s6s, s7s);
        lemma_is_at_join(b@, pos as int, s1s + s2s + s3s + s4s + s5s + s6s + s7s, s8s);
        lemma_is_at_join(b@, pos as int, s1s + s2s + s3s + s4s + s5s + s6s + s7s + s8s, s9s);
        assert(is_at(b@, pos as int, spec_enc_sign_in_response(v@)));
        assert forall|w: SignInResponseV|
            w.wf() && is_at(b@, pos as int, #[trigger] spec_enc_sign_in_response(w)) implies (v@ == w
            && p9 == pos + spec_enc_sign_in_response(w).len()) by {
            lemma_sign_in_response_parts(b@, pos as int, w);
            assert(v@ =~= w);
        }
    }
    Some((v, p9))
}


/// Two splits of the same byte string at the first occurrence of a byte
/// agree.
pub proof fn lemma_split_unique(s: Seq<u8>, c: u8, b1: Seq<u8>, a1: Seq<u8>, b2: Seq<u8>, a2: Seq<u8>)
    requires
        s == b1 + seq![c] + a1,
        s == b2 + seq![c] + a2,
        !b1.contains(c),
        !b2.contains(c),
    ensures
        b1 == b2,
        a1 == a2,
{
    if b1.len() < b2.len() {
        assert(s[b1.len() as int] == c);
        assert(s[b1.len() as int] == b2[b1.len() as int]);
        assert(b2.contains(c));
    } else if b2.len() < b1.len() {
        assert(s[b2.len() as int] == c);
        assert(s[b2.len() as int] == b1[b2.len() as int]);
        assert(b1.contains(c));
    }
    assert(b1.len() == b2.len());
    assert forall|j: int| 0 <= j < b1.len() implies b1[j] == b2[j] by {
        assert(b1[j] == s[j]);
        assert(b2[j] == s[j]);
    }
    assert(b1 =~= b2);
    assert(s.len() == b1.len() + 1 + a1.len());
    assert(s.len() == b2.len() + 1 + a2.len());
    assert(a1.len() == a2.len());
    assert forall|j: int| 0 <= j < a1.len() implies a1[j] == a2[j] by {
        assert(a1[j] == s[b1.len() + 1 + j]);
        assert(a2[j] == s[b2.len() + 1 + j]);
    }
    assert(a1 =~= a2);
}


/// The prefix of `s` before the first occurrence of `c` (all of `s` when
/// `c` does not occur).
pub open spec fn spec_before(s: Seq<u8>, c: u8) -> Seq<u8>
    decreases s.len(),
{
    if s.len() == 0 {
        s
    } else if s[0] == c {
        Seq::empty()
    } else {
        seq![s[0]] + spec_before(s.drop_first(), c)
    }
}

/// Whether `c` occurs in `s` at all.
pub open spec fn spec_found(s: Seq<u8>, c: u8) -> bool {
    spec_before(s, c).len() < s.len()
}

/// The suffix of `s` after the first occurrence of `c` (empty when `c`
/// does not occur).
pub open spec fn spec_after(s: Seq<u8>, c: u8) -> Seq<u8> {
    if spec_found(s, c) {
        s.skip(spec_before(s, c).len() as int + 1)
    } else {
        Seq::empty()
    }
}

/// The shape of the first-occurrence split.
pub proof fn lemma_before(s: Seq<u8>, c: u8)
    ensures
        spec_before(s, c).len() <= s.len(),
        spec_before(s, c) == s.take(spec_before(s, c).len() as int),
        !spec_before(s, c).contains(c),
        spec_found(s, c) ==> s[spec_before(s, c).len() as int] == c,
        spec_found(s, c) <==> s.contains(c),
        !spec_found(s, c) ==> spec_before(s, c) == s,
    decreases s.len(),
{
    if s.len() == 0 {
        assert(spec_before(s, c) =~= s.take(0));
    } else if s[0] == c {
        assert(spec_before(s, c) =~= s.take(0));
        assert(s.contains(c)) by {
            assert(s[0] == c);
        }
    } else {
        let rest = s.drop_first();
        lemma_before(rest, c);
        let b = spec_before(s, c);
        let rb = spec_before(rest, c);
        assert(b == seq![s[0]] + rb);
        assert(b =~= s.take(b.len() as int)) by {
            assert forall|i: int| 0 <= i < b.len() implies b[i] == s[i] by {
                if i > 0 {
                    assert(b[i] == rb[i - 1]);
                    assert(rb[i - 1] == rest.take(rb.len() as int)[i - 1]);
                    assert(rest[i - 1] == s[i]);
                }
            }
        }
        assert(!b.contains(c)) by {
            if b.contains(c) {
                let j = choose|j: int| 0 <= j < b.len() && b[j] == c;
                if j > 0 {
                    assert(rb[j - 1] == c);
                    assert(rb.contains(c));
                }
            }
        }
        if spec_found(s, c) {
            assert(spec_found(rest, c));
            assert(rest[rb.len() as int] == c);
            assert(s[b.len() as int] == rest[b.len() - 1]);
        }
        if s.contains(c) {
            let j = choose|j: int| 0 <= j < s.len() && s[j] == c;
            assert(j > 0);
            assert(rest[j - 1] == c);
            assert(rest.contains(c));
            assert(spec_found(rest, c));
            assert(spec_found(s, c));
        }
        if !spec_found(s, c) {
            assert(!spec_found(rest, c));
            assert(rb == rest);
            assert(b =~= s);
        }
    }
}

/// A witnessed first-occurrence split is the split `spec_before` and
/// `spec_after` describe.
pub proof fn lemma_split_is_before(s: Seq<u8>, c: u8, b: Seq<u8>, a: Seq<u8>)
    requires
        s == b + seq![c] + a,
        !b.contains(c),
    ensures
        spec_found(s, c),
        spec_before(s, c) == b,
        spec_after(s, c) == a,
{
    lemma_before(s, c);
    assert(s.contains(c)) by {
        assert(s[b.len() as int] == c);
    }
    let k = spec_before(s, c).len() as int;
    assert(s =~= s.take(k) + seq![s[k]] + s.skip(k + 1));
    assert(spec_after(s, c) == s.skip(k + 1));
    lemma_split_unique(s, c, b, a, spec_before(s, c), s.skip(k + 1));
}

/// The characters of a byte string when it is valid UTF-8, else nothing.
pub open spec fn spec_utf8_or_empty(b: Seq<u8>) -> Seq<char> {
    if vstd::utf8::valid_utf8(b) {
        vstd::utf8::decode_utf8(b)
    } else {
        Seq::empty()
    }
}

/// The value of the first `key=value` query pair whose percent-decoded key
/// reads as `key`, percent-decoded; the empty string when no pair matches.
pub open spec fn spec_query_value(q: Seq<u8>, key: Seq<char>) -> Seq<char>
    decreases q.len(),
{
    let pair = spec_before(q, 0x26);
    let kd = spec_pct_dec(spec_before(pair, 0x3d));
    if spec_found(pair, 0x3d) && vstd::utf8::valid_utf8(kd) && vstd::utf8::decode_utf8(kd)
        == key {
        spec_utf8_or_empty(spec_pct_dec(spec_after(pair, 0x3d)))
    } else if spec_found(q, 0x26) {
        spec_query_value(spec_after(q, 0x26), key)
    } else {
        Seq::empty()
    }
}

/// Whether the bytes contain a `://` scheme separator.
pub open spec fn spec_has_scheme(s: Seq<u8>) -> bool {
    exists|i: int|
        0 <= i && i + 3 <= s.len() && (#[trigger] s[i]) == 0x3au8 && s[i + 1] == 0x2fu8 && s[i + 2]
            == 0x2fu8
}

/// Scans for a `://` scheme separator.
fn find_scheme(s: &Vec<u8>) -> (r: bool)
    ensures
        r == spec_has_scheme(s@),
{
    let n = s.len();
    if n < 3 {
        return false;
    }
    let mut i: usize = 0;
    while i <= n - 3
        invariant
            3 <= n == s@.len(),
            i <= n - 2,
            forall|j: int|
                0 <= j < i ==> !((#[trigger] s@[j]) == 0x3au8 && s@[j + 1] == 0x2fu8 && s@[j + 2]
                    == 0x2fu8),
        decreases n - i,
    {
        if s[i] == 0x3a && s[i + 1] == 0x2f && s[i + 2] == 0x2f {
            return true;
        }
        i += 1;
    }
    proof {
        if spec_has_scheme(s@) {
            let j = choose|j: int|
                0 <= j && j + 3 <= s@.len() && (#[trigger] s@[j]) == 0x3au8 && s@[j + 1] == 0x2fu8
                    && s@[j + 2] == 0x2fu8;
            assert(j < i);
        }
    }
    false
}

/// A parsed inbound deep-link URL: the URL itself, the `os` and `action`
/// query values, and the decoded fragment payload, if one was present.
pub struct DeepLinkResponse {
    pub url: String,
    pub os: String,
    pub action: String,
    pub payload: Option<Vec<u8>>,
}

impl DeepLinkResponse {
    /// Parses a URL string. The URL must carry a `://` scheme separator
    /// before its query, and its fragment, if present, must be canonical
    /// base64url; a successful parse ties the payload to the fragment
    /// exactly, and the `os` and `action` fields to the first query pairs
    /// with those keys (empty when absent).
    pub fn from_url(url: String) -> (r: Result<DeepLinkResponse, Error>)
        ensures
            ({
                let bytes = vstd::utf8::encode_utf8(url@);
                let pre = spec_before(bytes, 0x23);
                let query = spec_after(pre, 0x3f);
                &&& ((r is Ok) <==> (spec_has_scheme(spec_before(pre, 0x3f)) && (!spec_found(
                    bytes,
                    0x23,
                ) || exists|p: Seq<u8>| spec_after(bytes, 0x23) == spec_b64(p))))
                &&& (r matches Ok(resp) ==> {
                    &&& resp.url@ == url@
                    &&& resp.os@ == spec_query_value(query, "os"@)
                    &&& resp.action@ == spec_query_value(query, "action"@)
                    &&& ((resp.payload is None) <==> !spec_found(bytes, 0x23))
                    &&& (resp.payload matches Some(p) ==> spec_after(bytes, 0x23) == spec_b64(p@)
                        && (forall|q: Seq<u8>|
                        spec_after(bytes, 0x23) == spec_b64(q) ==> q == p@))
                })
                &&& (r matches Err(e) ==> e is Protocol)
            }),
    {
        let bytes = url.as_str().as_bytes_vec();
        let ghost bv = bytes@;
        let (pre, payload) = match split_once(&bytes, 0x23) {
            Some((before, frag)) => {
                proof {
                    lemma_split_is_before(bv, 0x23, before@, frag@);
                }
                match b64_decode(&frag) {
                    Some(p) => (before, Some(p)),
                    None => {
                        proof {
                            assert forall|p: Seq<u8>| spec_after(bv, 0x23) != spec_b64(p) by {}
                        }
                        return Err(
                            Error::Protocol(String::from_str("fragment is not valid base64url")),
                        );
                    },
                }
            },
            None => {
                proof {
                    lemma_before(bv, 0x23);
                }
                (bytes, None)
            },
        };
        let scheme_ok: bool;
        let query: Vec<u8>;
        match split_once(&pre, 0x3f) {
            Some((path, q)) => {
                proof {
                    lemma_split_is_before(pre@, 0x3f, path@, q@);
                }
                scheme_ok = find_scheme(&path);
                query = q;
            },
            None => {
                proof {
                    lemma_before(pre@, 0x3f);
                    assert(spec_after(pre@, 0x3f) =~= Seq::<u8>::empty());
                }
                scheme_ok = find_scheme(&pre);
                query = Vec::new();
            },
        }
        if !scheme_ok {
            return Err(Error::Protocol(String::from_str("URL carries no scheme")));
        }
        let os = find_query_value(&query, "os");
        let action = find_query_value(&query, "action");
        Ok(DeepLinkResponse { url, os, action, payload })
    }

    /// Parses a URL given as a string slice; same contract as `from_url`.
    pub fn from_str(url: &str) -> (r: Result<DeepLinkResponse, Error>)
        ensures
            ({
                let bytes = vstd::utf8::encode_utf8(url@);
                let pre = spec_before(bytes, 0x23);
                let query = spec_after(pre, 0x3f);
                &&& ((r is Ok) <==> (spec_has_scheme(spec_before(pre, 0x3f)) && (!spec_found(
                    bytes,
                    0x23,
                ) || exists|p: Seq<u8>| spec_after(bytes, 0x23) == spec_b64(p))))
                &&& (r matches Ok(resp) ==> {
                    &&& resp.url@ == url@
                    &&& resp.os@ == spec_query_value(query, "os"@)
                    &&& resp.action@ == spec_query_value(query, "action"@)
                    &&& ((resp.payload is None) <==> !spec_found(bytes, 0x23))
                    &&& (resp.payload matches Some(p) ==> spec_after(bytes, 0x23) == spec_b64(p@)
                        && (forall|q: Seq<u8>|
                        spec_after(bytes, 0x23) == spec_b64(q) ==> q == p@))
                })
                &&& (r matches Err(e) ==> e is Protocol)
            }),
    {
        Self::from_url(String::from_str(url))
    }

    /// Decodes the payload as a sign-in response. Succeeds exactly when a
    /// payload is present and holds one canonical response encoding.
    pub fn get_payload(&self) -> (r: Result<SignInResponse, Error>)
        ensures
            r matches Ok(v) ==> (self.payload matches Some(p) && v@.wf() && p@
                == spec_enc_sign_in_response(v@)),
            r matches Err(e) ==> e is Protocol,
            self.payload matches Some(p) ==> forall|w: SignInResponseV|
                w.wf() && p@ == #[trigger] spec_enc_sign_in_response(w) ==> (r matches Ok(v) && v@
                    == w),
            self.payload is None ==> r is Err,
    {
        match &self.payload {
            None => Err(Error::Protocol(String::from_str("payload is absent"))),
            Some(p) => {
                match dec_sign_in_response(p, 0) {
                    Some((v, end)) if end == p.len() => {
                        proof {
                            assert(p@.subrange(0, p@.len() as int) =~= p@);
                            assert(v@.delegations.len() <= usize::MAX) by {
                                match &v.delegations {
                                    d => {
                                        assert(vstd::std_specs::vec::spec_vec_len(d) == d@.len());
                                        assert(v@.delegations =~= links_view(d@));
                                    },
                                }
                            }
                            assert forall|w: SignInResponseV|
                                w.wf() && p@ == #[trigger] spec_enc_sign_in_response(
                                    w,
                                ) implies v@ == w by {
                                assert(is_at(p@, 0, spec_enc_sign_in_response(w)));
                            }
                        }
                        Ok(v)
                    },
                    _ => {
                        proof {
                            assert forall|w: SignInResponseV|
                                w.wf() && p@ == #[trigger] spec_enc_sign_in_response(
                                    w,
                                ) implies false by {
                                assert(p@.subrange(0, p@.len() as int) =~= p@);
                                assert(is_at(p@, 0, spec_enc_sign_in_response(w)));
                            }
                        }
                        Err(
                            Error::Protocol(
                                String::from_str("payload is not a valid sign-in response"),
                            ),
                        )
                    },
                }
            },
        }
    }
}

/// The percent-decoded value of the first `key=value` query pair whose key
/// matches, or the empty string.
#[verifier::spinoff_prover]
#[verifier::rlimit(100)]
fn find_query_value(query: &Vec<u8>, key: &str) -> (r: String)
    ensures
        r@ == spec_query_value(query@, key@),
{
    broadcast use vstd::utf8::encode_utf8_decode_utf8;

    let mut rest = clone_vec_u8(query);
    loop
        invariant
            spec_query_value(query@, key@) == spec_query_value(rest@, key@),
        decreases rest@.len(),
    {
        let ghost rq = rest@;
        let (pair, tail, has_tail) = match split_once(&rest, 0x26) {
            Some((p, t)) => {
                proof {
                    lemma_split_is_before(rq, 0x26, p@, t@);
                }
                (p, t, true)
            },
            None => {
                proof {
                    lemma_before(rq, 0x26);
                }
                (clone_vec_u8(&rest), Vec::new(), false)
            },
        };
        match split_once(&pair, 0x3d) {
            Some((k, v)) => {
                proof {
                    lemma_split_is_before(pair@, 0x3d, k@, v@);
                }
                let kd = pct_decode(&k);
                let ghost kdv = kd@;
                match string_from_utf8(kd) {
                    Some(ks) => {
                        if str_eq(ks.as_str(), key) {
                            proof {
                                vstd::utf8::encode_utf8_decode_utf8(ks@);
                                assert(vstd::utf8::decode_utf8(kdv) == ks@);
                                assert(spec_query_value(rq, key@) == spec_utf8_or_empty(
                                    spec_pct_dec(spec_after(pair@, 0x3d)),
                                ));
                            }
                            let vd = pct_decode(&v);
                            let ghost vdv = vd@;
                            match string_from_utf8(vd) {
                                Some(vs) => {
                                    proof {
                                        vstd::utf8::encode_utf8_decode_utf8(vs@);
                                        assert(vstd::utf8::decode_utf8(vdv) == vs@);
                                    }
                                    return vs;
                                },
                                None => {
                                    return String::new();
                                },
                            }
                        } else {
                            proof {
                                vstd::utf8::encode_utf8_decode_utf8(ks@);
                                assert(vstd::utf8::decode_utf8(kdv) == ks@);
                                assert(vstd::utf8::decode_utf8(
                                    spec_pct_dec(spec_before(pair@, 0x3d)),
                                ) != key@);
                            }
                        }
                    },
                    None => {
                        proof {
                            assert(!vstd::utf8::valid_utf8(
                                spec_pct_dec(spec_before(pair@, 0x3d)),
                            ));
                        }
                    },
                }
            },
            None => {
                proof {
                    lemma_before(pair@, 0x3d);
                    assert(!spec_found(pair@, 0x3d));
                }
            },
        }
        if !has_tail {
            proof {
                assert(pair@ == rq);
                assert(spec_query_value(rq, key@) == Seq::<char>::empty());
            }
            return String::new();
        }
        proof {
            assert(spec_after(rq, 0x26) == tail@);
            assert(spec_query_value(rq, key@) == spec_query_value(tail@, key@));
        }
        rest = tail;
    }
}

/// An exact copy of a byte vector.
fn clone_vec_u8(v: &Vec<u8>) -> (r: Vec<u8>)
    ensures
        r@ == v@,
{
    let mut r: Vec<u8> = Vec::new();
    r.extend_from_slice(v.as_slice());
    proof {
        assert(r@ =~= v@);
    }
    r
}

/// The deep-link plugin configuration: where sign-in requests are sent.
pub struct Config {
    pub sign_in_endpoint: String,
}

/// The state of the sign-in protocol.
#[derive(Clone, Copy, Debug, PartialEq, Eq, Structural)]
pub enum FlowState {
    Idle,
    AwaitingCallback,
    Authenticated,
    Failed,
}

/// The view of the deep-link service.
pub struct DeepLinkServiceV {
    pub endpoint: Seq<char>,
    pub flow: FlowState,
}

/// The sign-in protocol driver: holds the endpoint and the current state
/// of the flow.
pub struct DeepLinkService {
    sign_in_endpoint: String,
    flow: FlowState,
}

impl View for DeepLinkService {
    type V = DeepLinkServiceV;

    closed spec fn view(&self) -> DeepLinkServiceV {
        DeepLinkServiceV { endpoint: self.sign_in_endpoint@, flow: self.flow }
    }
}

/// The requested delegation lifetime: thirty days, in milliseconds.
pub const MAX_TIME_TO_LIVE: u64 = 1000 * 60 * 60 * 24 * 30;

/// The outcome of starting a sign-in.
pub enum StartSignIn {
    /// The active identity is already authenticated; nothing was done.
    AlreadyAuthenticated,
    /// A fresh attempt was started; the embedder opens this URL in the
    /// browser.
    Started(String),
}

/// The outcome of handling one inbound URL.
pub enum UrlOutcome {
    /// The URL did not parse.
    Invalid(Error),
    /// A sign-in callback verified; the notification to emit.
    SignedIn(IdentityInfo),
    /// A sign-in callback failed verification; prior state is untouched.
    SignInFailed(Error),
    /// An action this version does not understand; reported, not an error.
    UnknownAction(String),
}

/// A snapshot of the protocol's whole state: the service, the secret
/// state and the identity slot, as views.
pub struct ProtocolState {
    pub service: DeepLinkServiceV,
    pub secret: SecretStateV,
    pub holder: ActiveIdentityV,
}

/// A URL parses: it carries a scheme separator before its query, and its
/// fragment (if any) is canonical base64url.
pub open spec fn spec_parse_ok(bytes: Seq<u8>) -> bool {
    &&& spec_has_scheme(spec_before(spec_before(bytes, 0x23), 0x3f))
    &&& (!spec_found(bytes, 0x23) || exists|p: Seq<u8>| spec_after(bytes, 0x23) == spec_b64(p))
}

/// The `action` query value of a URL.
pub open spec fn spec_action_of(bytes: Seq<u8>) -> Seq<char> {
    spec_query_value(spec_after(spec_before(bytes, 0x23), 0x3f), "action"@)
}

/// A URL's fragment carries a sign-in response whose chain verifies
/// against the session key derived from `session_secret` at `now_ms`.
pub open spec fn spec_signin_accepts(bytes: Seq<u8>, session_secret: Seq<u8>, now_ms: u64) -> bool {
    exists|w: SignInResponseV|
        {
            &&& #[trigger] w.wf()
            &&& spec_found(bytes, 0x23)
            &&& spec_after(bytes, 0x23) == spec_b64(spec_enc_sign_in_response(w))
            &&& chain_valid(
                w.user_pubkey,
                spec_session_pubkey(session_secret),
                w.delegations,
                now_ms,
            )
        }
}

/// How handling one inbound URL moves the protocol state: an unparseable
/// URL or an action other than `SignIn` changes nothing; a sign-in
/// callback either installs the verified record or, on failure, leaves
/// everything but the flow marker untouched. The session secret and the
/// assistant configuration never change here.
pub open spec fn spec_url_step(
    pre: ProtocolState,
    post: ProtocolState,
    url: Seq<char>,
    outcome: UrlOutcome,
    now_ms: u64,
) -> bool {
    let bytes = vstd::utf8::encode_utf8(url);
    &&& post.service.endpoint == pre.service.endpoint
    &&& post.secret.session_secret == pre.secret.session_secret
    &&& post.secret.assistant == pre.secret.assistant
    &&& match outcome {
        UrlOutcome::Invalid(e) => !spec_parse_ok(bytes) && e is Protocol && post == pre,
        UrlOutcome::UnknownAction(a) => spec_parse_ok(bytes) && a@ == spec_action_of(bytes) && a@
            != "SignIn"@ && post == pre,
        UrlOutcome::SignedIn(evt) => {
            &&& spec_parse_ok(bytes)
            &&& spec_action_of(bytes) == "SignIn"@
            &&& spec_signin_accepts(bytes, pre.secret.session_secret, now_ms)
            &&& post.service.flow is Authenticated
            &&& (post.secret.auth matches Some(a) && {
                &&& chain_valid(
                    a.user_pubkey,
                    spec_session_pubkey(pre.secret.session_secret),
                    a.delegations,
                    now_ms,
                )
                &&& post.holder == (ActiveIdentityV::Delegated {
                    user_pubkey: a.user_pubkey,
                    session_secret: pre.secret.session_secret,
                    delegations: a.delegations,
                })
                &&& evt.id@ == crate::crypto::principal_of(a.user_pubkey)
                &&& (evt.expiration matches Some(ms) && ms > now_ms)
            })
        },
        UrlOutcome::SignInFailed(e) => {
            &&& spec_parse_ok(bytes)
            &&& spec_action_of(bytes) == "SignIn"@
            &&& !spec_signin_accepts(bytes, pre.secret.session_secret, now_ms)
            &&& post.secret == pre.secret
            &&& post.holder == pre.holder
            &&& post.service.flow is Failed
            &&& (e is Protocol || e is ExpiredOrInvalidDelegation)
        },
    }
}

impl DeepLinkService {
    /// Builds the service from its configuration. The endpoint must not
    /// already carry a query or fragment.
    pub fn init(cfg: Config) -> (r: Result<DeepLinkService, Error>)
        ensures
            (r is Ok) <==> (!vstd::utf8::encode_utf8(cfg.sign_in_endpoint@).contains(0x3fu8)
                && !vstd::utf8::encode_utf8(cfg.sign_in_endpoint@).contains(0x23u8)),
            r matches Ok(s) ==> {
                &&& s@.endpoint == cfg.sign_in_endpoint@
                &&& s@.flow is Idle
            },
            r matches Err(e) ==> e is Config,
    {
        let bytes = cfg.sign_in_endpoint.as_str().as_bytes_vec();
        let has_query = match split_once(&bytes, 0x3f) {
            Some((b, a)) => {
                proof {
                    assert(bytes@[b@.len() as int] == 0x3fu8);
                }
                true
            },
            None => false,
        };
        let has_frag = match split_once(&bytes, 0x23) {
            Some((b, a)) => {
                proof {
                    assert(bytes@[b@.len() as int] == 0x23u8);
                }
                true
            },
            None => false,
        };
        if has_query || has_frag {
            return Err(
                Error::Config(
                    String::from_str("sign-in endpoint must not carry a query or fragment"),
                ),
            );
        }
        Ok(DeepLinkService { sign_in_endpoint: cfg.sign_in_endpoint, flow: FlowState::Idle })
    }

    /// Starts a sign-in attempt.
    ///
    /// A no-op when the active identity is already authenticated — calling
    /// it again in that state changes nothing, persisted or otherwise.
    /// Otherwise: generates a fresh ephemeral session key, stores its
    /// private half in the secret state (clearing any stale auth record,
    /// so an aborted attempt can never look authenticated), and returns
    /// the sign-in URL whose fragment carries the session public key and
    /// the requested lifetime. Nothing is persisted here; persistence
    /// happens on the callback.
    pub fn start_sign_in(
        &mut self,
        app: &AppState,
        secret: &mut SecretState,
        holder: &IdentityHolder,
        now_ms: u64,
    ) -> (r: StartSignIn)
        ensures
            spec_is_authenticated(holder@, now_ms) ==> {
                &&& r is AlreadyAuthenticated
                &&& final(secret)@ == old(secret)@
                &&& final(self)@ == old(self)@
            },
            !spec_is_authenticated(holder@, now_ms) ==> {
                &&& final(secret)@.auth is None
                &&& final(secret)@.assistant == old(secret)@.assistant
                &&& final(self)@.endpoint == old(self)@.endpoint
                &&& final(self)@.flow is AwaitingCallback
                &&& (r matches StartSignIn::Started(url) && url@ == spec_deeplink_url(
                    old(self)@.endpoint,
                    app@.os_platform,
                    "SignIn"@,
                    "https://anda.ai/deeplink/"@,
                    Some(
                        spec_enc_sign_in_request(
                            SignInRequestV {
                                session_pubkey: spec_session_pubkey(
                                    final(secret)@.session_secret,
                                ),
                                max_time_to_live: MAX_TIME_TO_LIVE,
                            },
                        ),
                    ),
                ))
            },
    {
        if holder.is_authenticated(now_ms) {
            return StartSignIn::AlreadyAuthenticated;
        }
        let fresh = rand_bytes::<32>();
        secret.session_secret = SensitiveData(fresh);
        secret.auth = None;
        let session_pubkey = secret.session_pubkey();
        let mut payload: Vec<u8> = Vec::new();
        enc_sign_in_request(
            &mut payload,
            &SignInRequest { session_pubkey, max_time_to_live: MAX_TIME_TO_LIVE },
        );
        let request = DeepLinkRequest {
            os: app.os_platform.clone(),
            action: String::from_str("SignIn"),
            next_url: String::from_str("https://anda.ai/deeplink/"),
            payload: Some(payload),
        };
        let url = request.to_url(self.sign_in_endpoint.as_str());
        self.flow = FlowState::AwaitingCallback;
        proof {
            reveal_strlit("SignIn");
            reveal_strlit("https://anda.ai/deeplink/");
        }
        StartSignIn::Started(url)
    }

    /// Handles a sign-in callback: decodes the payload, verifies the
    /// delegation chain against the in-memory session key, and on success
    /// stores the auth record, installs the delegated identity and reports
    /// the notification to emit. On failure nothing observable changes
    /// except the flow state — no partial auth record is ever written.
    /// The caller persists the secret state after a success.
    pub fn on_sign_in(
        &mut self,
        res: &DeepLinkResponse,
        secret: &mut SecretState,
        holder: &mut IdentityHolder,
        now_ms: u64,
    ) -> (r: Result<IdentityInfo, Error>)
        ensures
            (r is Ok) <==> (res.payload matches Some(p) && exists|w: SignInResponseV|
                w.wf() && p@ == spec_enc_sign_in_response(w) && chain_valid(
                    w.user_pubkey,
                    spec_session_pubkey(old(secret)@.session_secret),
                    w.delegations,
                    now_ms,
                )),
            r matches Err(e) ==> {
                &&& final(secret)@ == old(secret)@
                &&& final(holder)@ == old(holder)@
                &&& final(self)@.endpoint == old(self)@.endpoint
                &&& final(self)@.flow is Failed
                &&& (e is Protocol || e is ExpiredOrInvalidDelegation)
            },
            r matches Ok(evt) ==> {
                &&& final(secret)@.session_secret == old(secret)@.session_secret
                &&& final(secret)@.assistant == old(secret)@.assistant
                &&& final(self)@.endpoint == old(self)@.endpoint
                &&& final(self)@.flow is Authenticated
                &&& (final(secret)@.auth matches Some(a) && {
                    &&& chain_valid(
                        a.user_pubkey,
                        spec_session_pubkey(old(secret)@.session_secret),
                        a.delegations,
                        now_ms,
                    )
                    &&& final(holder)@ == (ActiveIdentityV::Delegated {
                        user_pubkey: a.user_pubkey,
                        session_secret: old(secret)@.session_secret,
                        delegations: a.delegations,
                    })
                    &&& evt.id@ == crate::crypto::principal_of(a.user_pubkey)
                    &&& (evt.expiration matches Some(ms) && ms > now_ms)
                    &&& (res.payload matches Some(p) && p@ == spec_enc_sign_in_response(
                        SignInResponseV {
                            user_pubkey: a.user_pubkey,
                            delegations: a.delegations,
                            authn_method: a.authn_method,
                            origin: a.origin,
                        },
                    ))
                })
            },
    {
        let sir = match res.get_payload() {
            Ok(sir) => sir,
            Err(e) => {
                proof {
                    match res.payload {
                        Some(ref p) => {
                            assert forall|w: SignInResponseV|
                                !(w.wf() && p@ == #[trigger] spec_enc_sign_in_response(w)
                                    && chain_valid(
                                    w.user_pubkey,
                                    spec_session_pubkey(old(secret)@.session_secret),
                                    w.delegations,
                                    now_ms,
                                )) by {}
                        },
                        None => {},
                    }
                }
                self.flow = FlowState::Failed;
                return Err(e);
            },
        };
        let auth = InternetIdentityAuth::from_response(sir);
        let session_secret = secret.session_secret.0;
        match auth.to_identity(session_secret, now_ms) {
            Ok(id) => {
                let evt = holder.set(id);
                proof {
                    let d = crate::identity::spec_delegations(id@);
                    assert(d == auth@.delegations);
                    assert(d.len() > 0);
                    match evt.expiration {
                        Some(ms) => {
                            let j = choose|j: int|
                                0 <= j < d.len() && d[j].expiration / 1_000_000 == ms;
                            assert(crate::delegation::link_fresh(d[j], now_ms));
                        },
                        None => {},
                    }
                }
                secret.auth = Some(auth);
                self.flow = FlowState::Authenticated;
                Ok(evt)
            },
            Err(e) => {
                proof {
                    match res.payload {
                        Some(ref p) => {
                            assert forall|w: SignInResponseV|
                                !(w.wf() && p@ == #[trigger] spec_enc_sign_in_response(w)
                                    && chain_valid(
                                    w.user_pubkey,
                                    spec_session_pubkey(old(secret)@.session_secret),
                                    w.delegations,
                                    now_ms,
                                )) by {
                                if w.wf() && p@ == spec_enc_sign_in_response(w) {
                                    assert(sir@ == w);
                                }
                            }
                        },
                        None => {},
                    }
                }
                self.flow = FlowState::Failed;
                Err(e)
            },
        }
    }

    /// Handles one inbound URL: parses it, runs a sign-in callback, and
    /// reports every other action without treating it as an error. The
    /// whole effect is one `spec_url_step`.
    pub fn handle_url(
        &mut self,
        url: &str,
        secret: &mut SecretState,
        holder: &mut IdentityHolder,
        now_ms: u64,
    ) -> (o: UrlOutcome)
        ensures
            spec_url_step(
                ProtocolState { service: old(self)@, secret: old(secret)@, holder: old(holder)@ },
                ProtocolState {
                    service: final(self)@,
                    secret: final(secret)@,
                    holder: final(holder)@,
                },
                url@,
                o,
                now_ms,
            ),
    {
        let ghost bytes = vstd::utf8::encode_utf8(url@);
        match DeepLinkResponse::from_str(url) {
            Err(e) => UrlOutcome::Invalid(e),
            Ok(resp) => {
                if str_eq(resp.action.as_str(), "SignIn") {
                    match self.on_sign_in(&resp, secret, holder, now_ms) {
                        Ok(evt) => {
                            proof {
                                let w = choose|w: SignInResponseV|
                                    w.wf() && (resp.payload matches Some(p) && p@
                                        == spec_enc_sign_in_response(w)) && chain_valid(
                                        w.user_pubkey,
                                        spec_session_pubkey(old(secret)@.session_secret),
                                        w.delegations,
                                        now_ms,
                                    );
                                assert(spec_after(bytes, 0x23) == spec_b64(
                                    spec_enc_sign_in_response(w),
                                ));
                                assert(spec_signin_accepts(
                                    bytes,
                                    old(secret)@.session_secret,
                                    now_ms,
                                ));
                            }
                            UrlOutcome::SignedIn(evt)
                        },
                        Err(e) => {
                            proof {
                                if spec_signin_accepts(bytes, old(secret)@.session_secret, now_ms) {
                                    let w = choose|w: SignInResponseV|
                                        {
                                            &&& #[trigger] w.wf()
                                            &&& spec_found(bytes, 0x23)
                                            &&& spec_after(bytes, 0x23) == spec_b64(
                                                spec_enc_sign_in_response(w),
                                            )
                                            &&& chain_valid(
                                                w.user_pubkey,
                                                spec_session_pubkey(old(secret)@.session_secret),
                                                w.delegations,
                                                now_ms,
                                            )
                                        };
                                    match resp.payload {
                                        Some(ref p) => {
                                            assert(spec_enc_sign_in_response(w) == p@);
                                            assert(false);
                                        },
                                        None => {
                                            assert(false);
                                        },
                                    }
                                }
                            }
                            UrlOutcome::SignInFailed(e)
                        },
                    }
                } else {
                    UrlOutcome::UnknownAction(resp.action)
                }
            },
        }
    }

    /// Dispatches a batch of inbound URLs in order, independently: each
    /// URL takes the state through one `spec_url_step`, witnessed by the
    /// chain of intermediate states, and every URL gets an outcome —
    /// failures are contained, never propagated.
    pub fn on_open_url(
        &mut self,
        urls: &Vec<String>,
        secret: &mut SecretState,
        holder: &mut IdentityHolder,
        now_ms: u64,
    ) -> (r: Vec<UrlOutcome>)
        ensures
            r@.len() == urls@.len(),
            exists|chain: Seq<ProtocolState>|
                {
                    &&& #[trigger] chain.len() == urls@.len() + 1
                    &&& chain[0] == (ProtocolState {
                        service: old(self)@,
                        secret: old(secret)@,
                        holder: old(holder)@,
                    })
                    &&& chain[urls@.len() as int] == (ProtocolState {
                        service: final(self)@,
                        secret: final(secret)@,
                        holder: final(holder)@,
                    })
                    &&& forall|i: int|
                        0 <= i < urls@.len() ==> spec_url_step(
                            chain[i],
                            chain[i + 1],
                            (#[trigger] urls@[i])@,
                            r@[i],
                            now_ms,
                        )
                },
    {
        let n = urls.len();
        let mut out: Vec<UrlOutcome> = Vec::new();
        let ghost s0 = ProtocolState { service: self@, secret: secret@, holder: holder@ };
        let ghost mut chain: Seq<ProtocolState> = seq![s0];
        let mut i: usize = 0;
        while i < n
            invariant
                i <= n,
                n == urls@.len(),
                out@.len() == i,
                chain.len() == i + 1,
                chain[0] == (ProtocolState {
                    service: old(self)@,
                    secret: old(secret)@,
                    holder: old(holder)@,
                }),
                chain[i as int] == (ProtocolState {
                    service: self@,
                    secret: secret@,
                    holder: holder@,
                }),
                forall|j: int|
                    0 <= j < i ==> spec_url_step(
                        chain[j],
                        chain[j + 1],
                        (#[trigger] urls@[j])@,
                        out@[j],
                        now_ms,
                    ),
            decreases n - i,
        {
            let o = self.handle_url(urls[i].as_str(), secret, holder, now_ms);
            proof {
                chain = chain.push(
                    ProtocolState { service: self@, secret: secret@, holder: holder@ },
                );
            }
            out.push(o);
            i += 1;
        }
        proof {
            assert(chain.len() == urls@.len() + 1);
            assert(chain[urls@.len() as int] == (ProtocolState {
                service: self@,
                secret: secret@,
                holder: holder@,
            }));
        }
        out
    }
}

impl InternetIdentityAuth {
    /// Builds the durable auth record from a sign-in response.
    pub fn from_response(r: SignInResponse) -> (a: InternetIdentityAuth)
        ensures
            a@.user_pubkey == r@.user_pubkey,
            a@.delegations == r@.delegations,
            a@.authn_method == r@.authn_method,
            a@.origin == r@.origin,
    {
        InternetIdentityAuth {
            user_pubkey: r.user_pubkey,
            delegations: r.delegations,
            authn_method: r.authn_method,
            origin: r.origin,
        }
    }
}

/// Clears the auth record and installs the anonymous identity; a no-op
/// when already anonymous. The caller persists the secret state after a
/// change.
pub fn logout(secret: &mut SecretState, holder: &mut IdentityHolder) -> (r: bool)
    ensures
        old(holder)@ is Anonymous ==> {
            &&& !r
            &&& final(secret)@ == old(secret)@
            &&& final(holder)@ == old(holder)@
        },
        !(old(holder)@ is Anonymous) ==> {
            &&& r
            &&& final(secret)@.auth is None
            &&& final(secret)@.session_secret == old(secret)@.session_secret
            &&& final(secret)@.assistant == old(secret)@.assistant
            &&& final(holder)@ is Anonymous
        },
{
    if holder.get().is_anonymous() {
        return false;
    }
    secret.auth = None;
    holder.set(crate::identity::ActiveIdentity::Anonymous);
    true
}

} // verus!

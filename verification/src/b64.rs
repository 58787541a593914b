//! URL-safe base64 without padding: the form in which binary payloads ride
//! in a deep-link URL fragment. The codec is canonical — decoding accepts
//! exactly the encoder's outputs — so a fragment determines its payload
//! and vice versa.

use vstd::prelude::*;

use vstd::utf8::{decode_utf8, encode_utf8, valid_utf8};

verus! {

/// Every byte is ASCII.
pub open spec fn all_ascii(b: Seq<u8>) -> bool {
    forall|i: int| 0 <= i < b.len() ==> (#[trigger] b[i]) < 0x80
}

/// ASCII bytes read as characters.
pub open spec fn ascii_chars(b: Seq<u8>) -> Seq<char> {
    b.map_values(|x: u8| x as char)
}

/// ASCII bytes are their own UTF-8 encoding.
pub proof fn lemma_ascii_utf8(b: Seq<u8>)
    requires
        all_ascii(b),
    ensures
        valid_utf8(b),
        decode_utf8(b) == ascii_chars(b),
        encode_utf8(ascii_chars(b)) == b,
    decreases b.len(),
{
    broadcast use vstd::utf8::decode_utf8_encode_utf8;

    if b.len() == 0 {
        assert(ascii_chars(b) =~= Seq::<char>::empty());
        assert(decode_utf8(b) =~= ascii_chars(b));
        assert(encode_utf8(ascii_chars(b)) =~= b);
    } else {
        assert(b[0] < 0x80);
        assert(vstd::utf8::is_leading_byte_width_1(b[0]));
        assert(vstd::utf8::length_of_first_codepoint(b) == 1);
        let rest = vstd::utf8::pop_first_scalar(b);
        assert(rest =~= b.drop_first());
        assert(all_ascii(rest));
        lemma_ascii_utf8(rest);
        assert(valid_utf8(b));
        assert(decode_utf8(b) == seq![vstd::utf8::decode_first_scalar(b) as char] + decode_utf8(
            rest,
        ));
        let b0 = b[0];
        assert((b0 & 0x7F) == b0) by (bit_vector)
            requires
                b0 < 0x80,
        ;
        assert(vstd::utf8::decode_first_scalar(b) == b0 as u32);
        assert((b[0] as u32) as char == b[0] as char);

        assert(decode_utf8(b) =~= ascii_chars(b)) by {
            assert(decode_utf8(rest) == ascii_chars(rest));
            assert forall|i: int| 0 <= i < b.len() implies ascii_chars(b)[i] == decode_utf8(b)[i] by {
                if i > 0 {
                    assert(ascii_chars(rest)[i - 1] == rest[i - 1] as char);
                    assert(rest[i - 1] == b[i]);
                }
            }
        }
        assert(valid_utf8(b));
        assert(encode_utf8(decode_utf8(b)) == b);
    }
}

/// A UTF-8 encoding spends at most four bytes per character.
pub proof fn lemma_utf8_len_bound(s: Seq<char>)
    ensures
        encode_utf8(s).len() <= 4 * s.len(),
    decreases s.len(),
{
    if s.len() > 0 {
        lemma_utf8_len_bound(s.drop_first());
        assert(vstd::utf8::encode_scalar(s[0] as u32).len() <= 4);
    }
}

/// The ASCII digit for a six-bit value: the URL-safe base64 alphabet.
pub open spec fn b64_digit(v: u8) -> u8
    recommends
        v < 64,
{
    if v < 26 {
        (0x41 + v) as u8
    } else if v < 52 {
        (0x61 + (v - 26)) as u8
    } else if v < 62 {
        (0x30 + (v - 52)) as u8
    } else if v == 62 {
        0x2d
    } else {
        0x5f
    }
}

/// The URL-safe, unpadded base64 rendering of a byte string, as ASCII
/// bytes.
pub open spec fn spec_b64(b: Seq<u8>) -> Seq<u8>
    decreases b.len(),
{
    if b.len() == 0 {
        Seq::empty()
    } else if b.len() == 1 {
        seq![b64_digit(b[0] / 4), b64_digit(((b[0] % 4) * 16) as u8)]
    } else if b.len() == 2 {
        seq![
            b64_digit(b[0] / 4),
            b64_digit(((b[0] % 4) * 16 + b[1] / 16) as u8),
            b64_digit(((b[1] % 16) * 4) as u8),
        ]
    } else {
        seq![
            b64_digit(b[0] / 4),
            b64_digit(((b[0] % 4) * 16 + b[1] / 16) as u8),
            b64_digit(((b[1] % 16) * 4 + b[2] / 64) as u8),
            b64_digit((b[2] % 64) as u8),
        ] + spec_b64(b.skip(3))
    }
}

/// The encoding's digits are ASCII.
pub proof fn lemma_b64_ascii(b: Seq<u8>)
    ensures
        all_ascii(spec_b64(b)),
    decreases b.len(),
{
    if b.len() > 2 {
        lemma_b64_ascii(b.skip(3));
    }
}

/// The length of the encoding: four digits per three bytes, then two or
/// three digits for a one- or two-byte tail.
pub proof fn lemma_b64_len(b: Seq<u8>)
    ensures
        b.len() % 3 == 0 ==> spec_b64(b).len() == b.len() / 3 * 4,
        b.len() % 3 == 1 ==> spec_b64(b).len() == b.len() / 3 * 4 + 2,
        b.len() % 3 == 2 ==> spec_b64(b).len() == b.len() / 3 * 4 + 3,
    decreases b.len(),
{
    if b.len() > 2 {
        lemma_b64_len(b.skip(3));
    }
}

/// Encoding distributes over a three-byte-aligned split.
pub proof fn lemma_b64_append(p: Seq<u8>, q: Seq<u8>)
    requires
        p.len() % 3 == 0,
    ensures
        spec_b64(p + q) == spec_b64(p) + spec_b64(q),
    decreases p.len(),
{
    if p.len() == 0 {
        assert(p + q =~= q);
        assert(spec_b64(p) + spec_b64(q) =~= spec_b64(q));
    } else {
        assert(p.len() >= 3);
        let c = p + q;
        assert(c.len() >= 3);
        assert(c[0] == p[0] && c[1] == p[1] && c[2] == p[2]);
        assert(c.skip(3) =~= p.skip(3) + q);
        lemma_b64_append(p.skip(3), q);
        assert(spec_b64(c) =~= spec_b64(p) + spec_b64(q));
    }
}

/// The executable digit table.
fn enc_digit(v: u8) -> (r: u8)
    requires
        v < 64,
    ensures
        r == b64_digit(v),
{
    if v < 26 {
        0x41 + v
    } else if v < 52 {
        0x61 + (v - 26)
    } else if v < 62 {
        0x30 + (v - 52)
    } else if v == 62 {
        0x2d
    } else {
        0x5f
    }
}

/// The inverse digit table: the six-bit value a digit stands for.
fn dec_digit(c: u8) -> (r: Option<u8>)
    ensures
        r matches Some(v) ==> v < 64 && b64_digit(v) == c,
        r is None ==> forall|v: u8| v < 64 ==> b64_digit(v) != c,
{
    if 0x41 <= c && c <= 0x5a {
        Some(c - 0x41)
    } else if 0x61 <= c && c <= 0x7a {
        Some(c - 0x61 + 26)
    } else if 0x30 <= c && c <= 0x39 {
        Some(c - 0x30 + 52)
    } else if c == 0x2d {
        Some(62)
    } else if c == 0x5f {
        Some(63)
    } else {
        None
    }
}

/// Encodes a byte string as URL-safe, unpadded base64 (as ASCII bytes).
pub fn b64_encode(v: &Vec<u8>) -> (r: Vec<u8>)
    ensures
        r@ == spec_b64(v@),
{
    let n = v.len();
    let mut out: Vec<u8> = Vec::new();
    let mut i: usize = 0;
    proof {
        assert(v@.skip(0) =~= v@);
        assert(out@ + spec_b64(v@) =~= spec_b64(v@));
    }
    while n - i >= 3
        invariant
            i <= n,
            i % 3 == 0,
            n == v@.len(),
            spec_b64(v@) == out@ + spec_b64(v@.skip(i as int)),
        decreases n - i,
    {
        let b0 = v[i];
        let b1 = v[i + 1];
        let b2 = v[i + 2];
        proof {
            let t = v@.skip(i as int);
            assert(t.len() >= 3);
            assert(t[0] == b0 && t[1] == b1 && t[2] == b2);
            assert(t.skip(3) =~= v@.skip(i + 3));
        }
        out.push(enc_digit(b0 / 4));
        out.push(enc_digit((b0 % 4) * 16 + b1 / 16));
        out.push(enc_digit((b1 % 16) * 4 + b2 / 64));
        out.push(enc_digit(b2 % 64));
        i += 3;
        proof {
            assert(spec_b64(v@) =~= out@ + spec_b64(v@.skip(i as int)));
        }
    }
    if n - i == 1 {
        let b0 = v[i];
        proof {
            let t = v@.skip(i as int);
            assert(t.len() == 1);
            assert(t[0] == b0);
        }
        out.push(enc_digit(b0 / 4));
        out.push(enc_digit((b0 % 4) * 16));
        proof {
            assert(spec_b64(v@) =~= out@);
        }
    } else if n - i == 2 {
        let b0 = v[i];
        let b1 = v[i + 1];
        proof {
            let t = v@.skip(i as int);
            assert(t.len() == 2);
            assert(t[0] == b0 && t[1] == b1);
        }
        out.push(enc_digit(b0 / 4));
        out.push(enc_digit((b0 % 4) * 16 + b1 / 16));
        out.push(enc_digit((b1 % 16) * 4));
        proof {
            assert(spec_b64(v@) =~= out@);
        }
    } else {
        proof {
            assert(v@.skip(i as int).len() == 0);
            assert(spec_b64(v@) =~= out@);
        }
    }
    out
}

/// Three bytes round-trip through their four digits.
proof fn lemma_chunk_roundtrip(b0: u8, b1: u8, b2: u8)
    ensures
        b0 / 4 < 64,
        (b0 % 4) * 16 + b1 / 16 < 64,
        (b1 % 16) * 4 + b2 / 64 < 64,
        b2 % 64 < 64,
        ((b0 / 4) * 4 + ((b0 % 4) * 16 + b1 / 16) / 16) == b0,
        ((((b0 % 4) * 16 + b1 / 16) % 16) * 16 + ((b1 % 16) * 4 + b2 / 64) / 4) == b1,
        ((((b1 % 16) * 4 + b2 / 64) % 4) * 64 + b2 % 64) == b2,
{
    assert(b0 / 4 < 64 && (b0 % 4) * 16 + b1 / 16 < 64 && (b1 % 16) * 4 + b2 / 64 < 64 && b2 % 64
        < 64 && ((b0 / 4) * 4 + ((b0 % 4) * 16 + b1 / 16) / 16) == b0 && ((((b0 % 4) * 16 + b1
        / 16) % 16) * 16 + ((b1 % 16) * 4 + b2 / 64) / 4) == b1 && ((((b1 % 16) * 4 + b2 / 64) % 4)
        * 64 + b2 % 64) == b2) by (bit_vector);
}

/// Four digit values recombine to three bytes whose digits they are.
proof fn lemma_chunk_digits(v0: u8, v1: u8, v2: u8, v3: u8)
    requires
        v0 < 64,
        v1 < 64,
        v2 < 64,
        v3 < 64,
    ensures
        ({
            let b0 = (v0 * 4 + v1 / 16) as u8;
            let b1 = ((v1 % 16) * 16 + v2 / 4) as u8;
            let b2 = ((v2 % 4) * 64 + v3) as u8;
            b0 / 4 == v0 && (b0 % 4) * 16 + b1 / 16 == v1 && (b1 % 16) * 4 + b2 / 64 == v2 && b2
                % 64 == v3
        }),
{
    assert(({
        let b0 = (v0 * 4 + v1 / 16) as u8;
        let b1 = ((v1 % 16) * 16 + v2 / 4) as u8;
        let b2 = ((v2 % 4) * 64 + v3) as u8;
        b0 / 4 == v0 && (b0 % 4) * 16 + b1 / 16 == v1 && (b1 % 16) * 4 + b2 / 64 == v2 && b2 % 64
            == v3
    })) by (bit_vector)
        requires
            v0 < 64 && v1 < 64 && v2 < 64 && v3 < 64,
    ;
}

/// Two digit values with clean padding bits recombine to the byte whose
/// digits they are, and conversely for three digits.
proof fn lemma_tail_digits(v0: u8, v1: u8, v2: u8)
    requires
        v0 < 64,
        v1 < 64,
        v2 < 64,
    ensures
        v1 % 16 == 0 ==> ({
            let b0 = (v0 * 4 + v1 / 16) as u8;
            b0 / 4 == v0 && (b0 % 4) * 16 == v1
        }),
        v2 % 4 == 0 ==> ({
            let b0 = (v0 * 4 + v1 / 16) as u8;
            let b1 = ((v1 % 16) * 16 + v2 / 4) as u8;
            b0 / 4 == v0 && (b0 % 4) * 16 + b1 / 16 == v1 && (b1 % 16) * 4 == v2
        }),
{
    assert((v1 % 16 == 0 ==> ({
        let b0 = (v0 * 4 + v1 / 16) as u8;
        b0 / 4 == v0 && (b0 % 4) * 16 == v1
    })) && (v2 % 4 == 0 ==> ({
        let b0 = (v0 * 4 + v1 / 16) as u8;
        let b1 = ((v1 % 16) * 16 + v2 / 4) as u8;
        b0 / 4 == v0 && (b0 % 4) * 16 + b1 / 16 == v1 && (b1 % 16) * 4 == v2
    }))) by (bit_vector)
        requires
            v0 < 64 && v1 < 64 && v2 < 64,
    ;
}

/// A digit stands for only one value.
proof fn lemma_digit_inj(a: u8, b: u8)
    requires
        a < 64,
        b < 64,
        b64_digit(a) == b64_digit(b),
    ensures
        a == b,
{
}

/// Decodes URL-safe, unpadded base64 (given as ASCII bytes). Strict:
/// accepts exactly the outputs of `b64_encode`, so a successful decode
/// identifies the input as the canonical rendering of the result.
#[verifier::spinoff_prover]
#[verifier::rlimit(100)]
pub fn b64_decode(v: &Vec<u8>) -> (r: Option<Vec<u8>>)
    ensures
        r matches Some(p) ==> v@ == spec_b64(p@),
        forall|p: Seq<u8>| v@ == #[trigger] spec_b64(p) ==> (r matches Some(q) && q@ == p),
{
    let n = v.len();
    let mut out: Vec<u8> = Vec::new();
    let mut i: usize = 0;
    proof {
        assert(spec_b64(out@) =~= v@.take(0));
        assert forall|p: Seq<u8>| v@ == #[trigger] spec_b64(p) implies {
            &&& p.len() >= out@.len()
            &&& p.take(out@.len() as int) == out@
            &&& spec_b64(p.skip(out@.len() as int)) == v@.skip(i as int)
        } by {
            assert(p.take(0) =~= out@);
            assert(p.skip(0) =~= p);
            assert(v@.skip(0) =~= v@);
        }
    }
    while n - i >= 4
        invariant
            i <= n,
            i % 4 == 0,
            n == v@.len(),
            out@.len() == i / 4 * 3,
            spec_b64(out@) =~= v@.take(i as int),
            forall|p: Seq<u8>|
                v@ == #[trigger] spec_b64(p) ==> {
                    &&& p.len() >= out@.len()
                    &&& p.take(out@.len() as int) == out@
                    &&& spec_b64(p.skip(out@.len() as int)) == v@.skip(i as int)
                },
        decreases n - i,
    {
        let c0 = dec_digit(v[i]);
        let c1 = dec_digit(v[i + 1]);
        let c2 = dec_digit(v[i + 2]);
        let c3 = dec_digit(v[i + 3]);
        match (c0, c1, c2, c3) {
            (Some(v0), Some(v1), Some(v2), Some(v3)) => {
                let b0 = v0 * 4 + v1 / 16;
                let b1 = (v1 % 16) * 16 + v2 / 4;
                let b2 = (v2 % 4) * 64 + v3;
                proof {
                    lemma_chunk_digits(v0, v1, v2, v3);
                    lemma_b64_append(out@, seq![b0, b1, b2]);
                    let chunk = seq![b0, b1, b2];
                    assert(chunk.len() == 3);
                    assert(chunk[0] == b0 && chunk[1] == b1 && chunk[2] == b2);
                    assert(chunk.skip(3) =~= Seq::<u8>::empty());
                    assert(spec_b64(Seq::<u8>::empty()) =~= Seq::<u8>::empty());
                    assert(spec_b64(chunk) =~= seq![
                        b64_digit(b0 / 4),
                        b64_digit(((b0 % 4) * 16 + b1 / 16) as u8),
                        b64_digit(((b1 % 16) * 4 + b2 / 64) as u8),
                        b64_digit((b2 % 64) as u8),
                    ]);
                    assert(spec_b64(out@ + seq![b0, b1, b2]) =~= v@.take(i + 4)) by {
                        assert(spec_b64(out@ + seq![b0, b1, b2]) == spec_b64(out@) + spec_b64(
                            seq![b0, b1, b2],
                        ));
                    }
                    assert forall|p: Seq<u8>| v@ == #[trigger] spec_b64(p) implies {
                        &&& p.len() >= out@.len() + 3
                        &&& p.take(out@.len() as int + 3) == out@ + seq![b0, b1, b2]
                        &&& spec_b64(p.skip(out@.len() as int + 3)) == v@.skip(i + 4)
                    } by {
                        let k = out@.len() as int;
                        let t = p.skip(k);
                        assert(spec_b64(t) == v@.skip(i as int));
                        assert(spec_b64(t).len() == n - i);
                        if t.len() <= 2 {
                            lemma_b64_len(t);
                            assert(false);
                        }
                        assert(spec_b64(t)[0] == b64_digit(t[0] / 4));
                        assert(v@.skip(i as int)[0] == v@[i as int]);
                        assert(v@.skip(i as int)[1] == v@[i + 1]);
                        assert(v@.skip(i as int)[2] == v@[i + 2]);
                        assert(v@.skip(i as int)[3] == v@[i + 3]);
                        let u0 = t[0];
                        let u1 = t[1];
                        let u2 = t[2];
                        lemma_chunk_roundtrip(u0, u1, u2);
                        lemma_digit_inj(v0, u0 / 4);
                        lemma_digit_inj(v1, ((u0 % 4) * 16 + u1 / 16) as u8);
                        lemma_digit_inj(v2, ((u1 % 16) * 4 + u2 / 64) as u8);
                        lemma_digit_inj(v3, (u2 % 64) as u8);
                        assert(t[0] == b0 && t[1] == b1 && t[2] == b2);
                        assert(p.take(k + 3) =~= p.take(k) + seq![b0, b1, b2]);
                        assert(p.skip(k + 3) =~= t.skip(3));
                        assert(t =~= t.take(3) + t.skip(3));
                        assert(spec_b64(t) == spec_b64(t.take(3) + t.skip(3)));
                        assert(t.take(3) =~= seq![t[0], t[1], t[2]]);
                        lemma_b64_append(t.take(3), t.skip(3));
                        assert(spec_b64(t.take(3)).len() == 4) by {
                            lemma_b64_len(t.take(3));
                        }
                        assert(spec_b64(p.skip(k + 3)) =~= v@.skip(i + 4)) by {
                            assert forall|j: int|
                                0 <= j < spec_b64(t.skip(3)).len() implies spec_b64(t.skip(3))[j]
                                == v@.skip(i + 4)[j] by {
                                assert(spec_b64(t)[j + 4] == spec_b64(t.skip(3))[j]);
                                assert(v@.skip(i as int)[j + 4] == v@[i + 4 + j]);
                            }
                        }
                    }
                }
                let ghost out0 = out@;
                out.push(b0);
                out.push(b1);
                out.push(b2);
                i += 4;
                proof {
                    assert(out@ =~= out0 + seq![b0, b1, b2]);
                }
            },
            _ => {
                proof {
                    assert forall|p: Seq<u8>| v@ == #[trigger] spec_b64(p) implies false by {
                        let k = out@.len() as int;
                        let t = p.skip(k);
                        assert(spec_b64(t) == v@.skip(i as int));
                        assert(spec_b64(t).len() == n - i);
                        if t.len() <= 2 {
                            lemma_b64_len(t);
                            assert(false);
                        }
                        assert(spec_b64(t)[0] == b64_digit(t[0] / 4));
                        assert(spec_b64(t)[1] == b64_digit(((t[0] % 4) * 16 + t[1] / 16) as u8));
                        assert(spec_b64(t)[2] == b64_digit(((t[1] % 16) * 4 + t[2] / 64) as u8));
                        assert(spec_b64(t)[3] == b64_digit((t[2] % 64) as u8));
                        assert(v@.skip(i as int)[0] == v@[i as int]);
                        assert(v@.skip(i as int)[1] == v@[i + 1]);
                        assert(v@.skip(i as int)[2] == v@[i + 2]);
                        assert(v@.skip(i as int)[3] == v@[i + 3]);
                        lemma_chunk_roundtrip(t[0], t[1], t[2]);
                    }
                }
                return None;
            },
        }
    }
    let rem = n - i;
    if rem == 0 {
        proof {
            assert(v@.take(i as int) =~= v@);
            assert forall|p: Seq<u8>| v@ == #[trigger] spec_b64(p) implies out@ == p by {
                let k = out@.len() as int;
                let t = p.skip(k);
                assert(spec_b64(t) == v@.skip(i as int));
                assert(spec_b64(t).len() == 0);
                lemma_b64_len(t);
                assert(t.len() == 0);
                assert(p.take(k) =~= p);
            }
        }
        Some(out)
    } else if rem == 1 {
        proof {
            assert forall|p: Seq<u8>| v@ == #[trigger] spec_b64(p) implies false by {
                let k = out@.len() as int;
                let t = p.skip(k);
                assert(spec_b64(t) == v@.skip(i as int));
                assert(spec_b64(t).len() == 1);
                lemma_b64_len(t);
            }
        }
        None
    } else if rem == 2 {
        let c0 = dec_digit(v[i]);
        let c1 = dec_digit(v[i + 1]);
        match (c0, c1) {
            (Some(v0), Some(v1)) if v1 % 16 == 0 => {
                let b0 = v0 * 4 + v1 / 16;
                proof {
                    lemma_tail_digits(v0, v1, 0);
                    lemma_b64_append(out@, seq![b0]);
                    assert(spec_b64(seq![b0]) =~= seq![
                        b64_digit(b0 / 4),
                        b64_digit(((b0 % 4) * 16) as u8),
                    ]);
                    assert(spec_b64(out@ + seq![b0]) =~= v@) by {
                        assert(v@.take(i as int) + seq![v@[i as int], v@[i + 1]] =~= v@);
                    }
                    assert forall|p: Seq<u8>| v@ == #[trigger] spec_b64(p) implies out@.push(b0)
                        == p by {
                        let k = out@.len() as int;
                        let t = p.skip(k);
                        assert(spec_b64(t) == v@.skip(i as int));
                        assert(spec_b64(t).len() == 2);
                        lemma_b64_len(t);
                        assert(t.len() == 1);
                        assert(spec_b64(t) =~= seq![
                            b64_digit(t[0] / 4),
                            b64_digit(((t[0] % 4) * 16) as u8),
                        ]);
                        assert(v@.skip(i as int)[0] == v@[i as int]);
                        assert(v@.skip(i as int)[1] == v@[i + 1]);
                        let u0 = t[0];
                        assert(u0 / 4 < 64 && (u0 % 4) * 16 < 64 && (u0 / 4) * 4 + ((u0 % 4) * 16)
                            / 16 == u0) by (bit_vector);
                        lemma_digit_inj(v0, u0 / 4);
                        lemma_digit_inj(v1, ((u0 % 4) * 16) as u8);
                        assert(t[0] == b0);
                        assert(p =~= p.take(k).push(b0));
                    }
                }
                let ghost out0 = out@;
                out.push(b0);
                proof {
                    assert(out@ =~= out0 + seq![b0]);
                }
                Some(out)
            },
            _ => {
                proof {
                    assert forall|p: Seq<u8>| v@ == #[trigger] spec_b64(p) implies false by {
                        let k = out@.len() as int;
                        let t = p.skip(k);
                        assert(spec_b64(t) == v@.skip(i as int));
                        assert(spec_b64(t).len() == 2);
                        lemma_b64_len(t);
                        assert(t.len() == 1);
                        assert(spec_b64(t) =~= seq![
                            b64_digit(t[0] / 4),
                            b64_digit(((t[0] % 4) * 16) as u8),
                        ]);
                        assert(v@.skip(i as int)[0] == v@[i as int]);
                        assert(v@.skip(i as int)[1] == v@[i + 1]);
                        let u0 = t[0];
                        assert(u0 / 4 < 64 && (u0 % 4) * 16 < 64 && ((u0 % 4) * 16) % 16 == 0)
                            by (bit_vector);
                    }
                }
                None
            },
        }
    } else {
        let c0 = dec_digit(v[i]);
        let c1 = dec_digit(v[i + 1]);
        let c2 = dec_digit(v[i + 2]);
        match (c0, c1, c2) {
            (Some(v0), Some(v1), Some(v2)) if v2 % 4 == 0 => {
                let b0 = v0 * 4 + v1 / 16;
                let b1 = (v1 % 16) * 16 + v2 / 4;
                proof {
                    lemma_tail_digits(v0, v1, v2);
                    lemma_b64_append(out@, seq![b0, b1]);
                    assert(spec_b64(seq![b0, b1]) =~= seq![
                        b64_digit(b0 / 4),
                        b64_digit(((b0 % 4) * 16 + b1 / 16) as u8),
                        b64_digit(((b1 % 16) * 4) as u8),
                    ]);
                    assert(spec_b64(out@ + seq![b0, b1]) =~= v@) by {
                        assert(v@.take(i as int) + seq![v@[i as int], v@[i + 1], v@[i + 2]] =~= v@);
                    }
                    assert forall|p: Seq<u8>| v@ == #[trigger] spec_b64(p) implies out@ + seq![
                        b0,
                        b1,
                    ] == p by {
                        let k = out@.len() as int;
                        let t = p.skip(k);
                        assert(spec_b64(t) == v@.skip(i as int));
                        assert(spec_b64(t).len() == 3);
                        lemma_b64_len(t);
                        assert(t.len() == 2);
                        assert(spec_b64(t) =~= seq![
                            b64_digit(t[0] / 4),
                            b64_digit(((t[0] % 4) * 16 + t[1] / 16) as u8),
                            b64_digit(((t[1] % 16) * 4) as u8),
                        ]);
                        assert(v@.skip(i as int)[0] == v@[i as int]);
                        assert(v@.skip(i as int)[1] == v@[i + 1]);
                        assert(v@.skip(i as int)[2] == v@[i + 2]);
                        let u0 = t[0];
                        let u1 = t[1];
                        assert(u0 / 4 < 64 && (u0 % 4) * 16 + u1 / 16 < 64 && (u1 % 16) * 4 < 64
                            && (u0 / 4) * 4 + ((u0 % 4) * 16 + u1 / 16) / 16 == u0 && (((u0 % 4)
                            * 16 + u1 / 16) % 16) * 16 + ((u1 % 16) * 4) / 4 == u1) by (bit_vector);
                        lemma_digit_inj(v0, u0 / 4);
                        lemma_digit_inj(v1, ((u0 % 4) * 16 + u1 / 16) as u8);
                        lemma_digit_inj(v2, ((u1 % 16) * 4) as u8);
                        assert(t[0] == b0 && t[1] == b1);
                        assert(p =~= p.take(k) + seq![b0, b1]);
                    }
                }
                let ghost out0 = out@;
                out.push(b0);
                out.push(b1);
                proof {
                    assert(out@ =~= out0 + seq![b0, b1]);
                }
                Some(out)
            },
            _ => {
                proof {
                    assert forall|p: Seq<u8>| v@ == #[trigger] spec_b64(p) implies false by {
                        let k = out@.len() as int;
                        let t = p.skip(k);
                        assert(spec_b64(t) == v@.skip(i as int));
                        assert(spec_b64(t).len() == 3);
                        lemma_b64_len(t);
                        assert(t.len() == 2);
                        assert(spec_b64(t) =~= seq![
                            b64_digit(t[0] / 4),
                            b64_digit(((t[0] % 4) * 16 + t[1] / 16) as u8),
                            b64_digit(((t[1] % 16) * 4) as u8),
                        ]);
                        assert(v@.skip(i as int)[0] == v@[i as int]);
                        assert(v@.skip(i as int)[1] == v@[i + 1]);
                        assert(v@.skip(i as int)[2] == v@[i + 2]);
                        let u0 = t[0];
                        let u1 = t[1];
                        assert(u0 / 4 < 64 && (u0 % 4) * 16 + u1 / 16 < 64 && (u1 % 16) * 4 < 64
                            && ((u1 % 16) * 4) % 4 == 0) by (bit_vector);
                    }
                }
                None
            },
        }
    }
}

} // verus!

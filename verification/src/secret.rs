//! The binary form of the encrypted state file's contents: delegation
//! links, the auth record, provider configuration, and the secret state
//! itself. Same conventions as the plaintext codec: one canonical CBOR
//! encoding per value, strict decoding.

use vstd::prelude::*;

use crate::cbor::{
    dec_array_head, dec_bytes, dec_map_head, dec_text, dec_uint, enc_array_head, enc_bytes,
    enc_map_head, enc_null, enc_text, enc_uint, is_at, lemma_is_at_concat, spec_array_head,
    spec_bytes, spec_map_head, spec_null, spec_text, spec_uint,
};
use crate::codec::{
    dec_bytes_arr, dec_opt_text, enc_opt_text, lemma_first_byte, lemma_head_first_byte,
    lemma_is_at_join, spec_enc_opt_text, str_eq,
};
use crate::model::{
    links_view, opt_assistant_view, opt_auth_view, provider_view, AssistantConfig,
    AssistantConfigV, InternetIdentityAuth, InternetIdentityAuthV, ModelProvider, ModelProviderV,
    SecretState, SecretStateV, SignedDelegation, SignedDelegationV,
};
use crate::utils::SensitiveData;

verus! {

/// The encoding of one delegation link: `{"d": {"p": pubkey, "e":
/// expiration}, "s": signature}`, with the inner map flattened into the
/// byte stream.
pub open spec fn spec_enc_link(v: SignedDelegationV) -> Seq<u8> {
    spec_map_head(2) + spec_text("d"@) + spec_map_head(2) + spec_text("p"@) + spec_bytes(v.pubkey)
        + spec_text("e"@) + spec_uint(v.expiration) + spec_text("s"@) + spec_bytes(v.signature)
}

/// Positions of the parts of an encoded link within a buffer.
proof fn lemma_link_parts(b: Seq<u8>, pos: int, w: SignedDelegationV)
    requires
        is_at(b, pos, spec_enc_link(w)),
    ensures
        is_at(b, pos, spec_map_head(2)),
        is_at(b, pos + 1, spec_text("d"@)),
        is_at(b, pos + 1 + spec_text("d"@).len(), spec_map_head(2)),
        is_at(b, pos + 2 + spec_text("d"@).len(), spec_text("p"@)),
        is_at(b, pos + 2 + spec_text("d"@).len() + spec_text("p"@).len(), spec_bytes(w.pubkey)),
        is_at(
            b,
            pos + 2 + spec_text("d"@).len() + spec_text("p"@).len() + spec_bytes(w.pubkey).len(),
            spec_text("e"@),
        ),
        is_at(
            b,
            pos + 2 + spec_text("d"@).len() + spec_text("p"@).len() + spec_bytes(w.pubkey).len()
                + spec_text("e"@).len(),
            spec_uint(w.expiration),
        ),
        is_at(
            b,
            pos + 2 + spec_text("d"@).len() + spec_text("p"@).len() + spec_bytes(w.pubkey).len()
                + spec_text("e"@).len() + spec_uint(w.expiration).len(),
            spec_text("s"@),
        ),
        is_at(
            b,
            pos + 2 + spec_text("d"@).len() + spec_text("p"@).len() + spec_bytes(w.pubkey).len()
                + spec_text("e"@).len() + spec_uint(w.expiration).len() + spec_text("s"@).len(),
            spec_bytes(w.signature),
        ),
{
    let s1 = spec_map_head(2);
    let s2 = spec_text("d"@);
    let s3 = spec_map_head(2);
    let s4 = spec_text("p"@);
    let s5 = spec_bytes(w.pubkey);
    let s6 = spec_text("e"@);
    let s7 = spec_uint(w.expiration);
    let s8 = spec_text("s"@);
    let s9 = spec_bytes(w.signature);
    lemma_is_at_concat(b, pos, s1 + s2 + s3 + s4 + s5 + s6 + s7 + s8, s9);
    lemma_is_at_concat(b, pos, s1 + s2 + s3 + s4 + s5 + s6 + s7, s8);
    lemma_is_at_concat(b, pos, s1 + s2 + s3 + s4 + s5 + s6, s7);
    lemma_is_at_concat(b, pos, s1 + s2 + s3 + s4 + s5, s6);
    lemma_is_at_concat(b, pos, s1 + s2 + s3 + s4, s5);
    lemma_is_at_concat(b, pos, s1 + s2 + s3, s4);
    lemma_is_at_concat(b, pos, s1 + s2, s3);
    lemma_is_at_concat(b, pos, s1, s2);
    assert(s1.len() == 1);
    assert(s3.len() == 1);
}

/// Appends the encoding of one delegation link.
pub fn enc_link(out: &mut Vec<u8>, v: &SignedDelegation)
    ensures
        final(out)@ =~= old(out)@ + spec_enc_link(v@),
{
    enc_map_head(out, 2);
    enc_text(out, "d");
    enc_map_head(out, 2);
    enc_text(out, "p");
    enc_bytes(out, v.pubkey.as_slice());
    enc_text(out, "e");
    enc_uint(out, v.expiration);
    enc_text(out, "s");
    enc_bytes(out, v.signature.as_slice());
}

/// Reads one delegation link at `pos`.
#[verifier::spinoff_prover]
#[verifier::rlimit(100)]
pub fn dec_link(b: &Vec<u8>, pos: usize) -> (r: Option<(SignedDelegation, usize)>)
    ensures
        r matches Some((v, end)) ==> {
            &&& pos < end <= b@.len()
            &&& end - pos == spec_enc_link(v@).len()
            &&& is_at(b@, pos as int, spec_enc_link(v@))
        },
        forall|w: SignedDelegationV|
            is_at(b@, pos as int, #[trigger] spec_enc_link(w)) ==> (r matches Some((v, end)) && v@
                == w && end == pos + spec_enc_link(w).len()),
{
    proof {
        reveal_strlit("d");
        reveal_strlit("p");
        reveal_strlit("e");
        reveal_strlit("s");
    }
    let r1 = dec_map_head(b, pos);
    let p1 = match r1 {
        Some((n1, p1)) if n1 == 2 => p1,
        _ => {
            proof {
                assert forall|w: SignedDelegationV|
                    is_at(b@, pos as int, #[trigger] spec_enc_link(w)) implies false by {
                    lemma_link_parts(b@, pos as int, w);
                }
            }
            return None;
        },
    };
    let k1 = dec_text(b, p1);
    let (s1, p2) = match k1 {
        Some((s1, p2)) => (s1, p2),
        None => {
            proof {
                assert forall|w: SignedDelegationV|
                    is_at(b@, pos as int, #[trigger] spec_enc_link(w)) implies false by {
                    lemma_link_parts(b@, pos as int, w);
                }
            }
            return None;
        },
    };
    if !str_eq(s1.as_str(), "d") {
        proof {
            assert forall|w: SignedDelegationV|
                is_at(b@, pos as int, #[trigger] spec_enc_link(w)) implies false by {
                lemma_link_parts(b@, pos as int, w);
            }
        }
        return None;
    }
    let r2 = dec_map_head(b, p2);
    let p3 = match r2 {
        Some((n2, p3)) if n2 == 2 => p3,
        _ => {
            proof {
                assert forall|w: SignedDelegationV|
                    is_at(b@, pos as int, #[trigger] spec_enc_link(w)) implies false by {
                    lemma_link_parts(b@, pos as int, w);
                }
            }
            return None;
        },
    };
    let k2 = dec_text(b, p3);
    let (s2, p4) = match k2 {
        Some((s2, p4)) => (s2, p4),
        None => {
            proof {
                assert forall|w: SignedDelegationV|
                    is_at(b@, pos as int, #[trigger] spec_enc_link(w)) implies false by {
                    lemma_link_parts(b@, pos as int, w);
                }
            }
            return None;
        },
    };
    if !str_eq(s2.as_str(), "p") {
        proof {
            assert forall|w: SignedDelegationV|
                is_at(b@, pos as int, #[trigger] spec_enc_link(w)) implies false by {
                lemma_link_parts(b@, pos as int, w);
            }
        }
        return None;
    }
    let v1 = dec_bytes(b, p4);
    let (pubkey, p5) = match v1 {
        Some((pubkey, p5)) => (pubkey, p5),
        None => {
            proof {
                assert forall|w: SignedDelegationV|
                    is_at(b@, pos as int, #[trigger] spec_enc_link(w)) implies false by {
                    lemma_link_parts(b@, pos as int, w);
                }
            }
            return None;
        },
    };
    let k3 = dec_text(b, p5);
    let (s3, p6) = match k3 {
        Some((s3, p6)) => (s3, p6),
        None => {
            proof {
                assert forall|w: SignedDelegationV|
                    is_at(b@, pos as int, #[trigger] spec_enc_link(w)) implies false by {
                    lemma_link_parts(b@, pos as int, w);
                }
            }
            return None;
        },
    };
    if !str_eq(s3.as_str(), "e") {
        proof {
            assert forall|w: SignedDelegationV|
                is_at(b@, pos as int, #[trigger] spec_enc_link(w)) implies false by {
                lemma_link_parts(b@, pos as int, w);
            }
        }
        return None;
    }
    let v2 = dec_uint(b, p6);
    let (expiration, p7) = match v2 {
        Some((expiration, p7)) => (expiration, p7),
        None => {
            proof {
                assert forall|w: SignedDelegationV|
                    is_at(b@, pos as int, #[trigger] spec_enc_link(w)) implies false by {
                    lemma_link_parts(b@, pos as int, w);
                }
            }
            return None;
        },
    };
    let k4 = dec_text(b, p7);
    let (s4, p8) = match k4 {
        Some((s4, p8)) => (s4, p8),
        None => {
            proof {
                assert forall|w: SignedDelegationV|
                    is_at(b@, pos as int, #[trigger] spec_enc_link(w)) implies false by {
                    lemma_link_parts(b@, pos as int, w);
                }
            }
            return None;
        },
    };
    if !str_eq(s4.as_str(), "s") {
        proof {
            assert forall|w: SignedDelegationV|
                is_at(b@, pos as int, #[trigger] spec_enc_link(w)) implies false by {
                lemma_link_parts(b@, pos as int, w);
            }
        }
        return None;
    }
    let v3 = dec_bytes(b, p8);
    let (signature, p9) = match v3 {
        Some((signature, p9)) => (signature, p9),
        None => {
            proof {
                assert forall|w: SignedDelegationV|
                    is_at(b@, pos as int, #[trigger] spec_enc_link(w)) implies false by {
                    lemma_link_parts(b@, pos as int, w);
                }
            }
            return None;
        },
    };
    let v = SignedDelegation { pubkey, expiration, signature };
    proof {
        let s1s = spec_map_head(2);
        let s2s = spec_text("d"@);
        let s3s = spec_map_head(2);
        let s4s = spec_text("p"@);
        let s5s = spec_bytes(v@.pubkey);
        let s6s = spec_text("e"@);
        let s7s = spec_uint(v@.expiration);
        let s8s = spec_text("s"@);
        let s9s = spec_bytes(v@.signature);
        assert(is_at(b@, pos as int, s1s)) by {
            assert(b@.subrange(pos as int, p1 as int) =~= spec_map_head(2));
        }
        lemma_is_at_join(b@, pos as int, s1s, s2s);
        assert(is_at(b@, p2 as int, s3s)) by {
            assert(b@.subrange(p2 as int, p3 as int) =~= spec_map_head(2));
        }
        lemma_is_at_join(b@, pos as int, s1s + s2s, s3s);
        lemma_is_at_join(b@, pos as int, s1s + s2s + s3s, s4s);
        lemma_is_at_join(b@, pos as int, s1s + s2s + s3s + s4s, s5s);
        lemma_is_at_join(b@, pos as int, s1s + s2s + s3s + s4s + s5s, s6s);
        lemma_is_at_join(b@, pos as int, s1s + s2s + s3s + s4s + s5s + s6s, s7s);
        lemma_is_at_join(b@, pos as int, s1s + s2s + s3s + s4s + s5s + s6s + s7s, s8s);
        lemma_is_at_join(b@, pos as int, s1s + s2s + s3s + s4s + s5s + s6s + s7s + s8s, s9s);
        assert(is_at(b@, pos as int, spec_enc_link(v@)));
        assert forall|w: SignedDelegationV|
            is_at(b@, pos as int, #[trigger] spec_enc_link(w)) implies (v@ == w && p9 == pos
            + spec_enc_link(w).len()) by {
            lemma_link_parts(b@, pos as int, w);
            assert(v@ =~= w);
        }
    }
    Some((v, p9))
}

/// The concatenation of the encodings of a sequence of links.
pub open spec fn spec_enc_link_seq(ls: Seq<SignedDelegationV>) -> Seq<u8>
    decreases ls.len(),
{
    if ls.len() == 0 {
        Seq::empty()
    } else {
        spec_enc_link(ls[0]) + spec_enc_link_seq(ls.drop_first())
    }
}

/// Appending one link to a sequence appends its encoding.
proof fn lemma_link_seq_push(ls: Seq<SignedDelegationV>, x: SignedDelegationV)
    ensures
        spec_enc_link_seq(ls.push(x)) =~= spec_enc_link_seq(ls) + spec_enc_link(x),
    decreases ls.len(),
{
    if ls.len() == 0 {
        assert(ls.push(x).len() == 1);
        assert(ls.push(x)[0] == x);
        assert(ls.push(x).drop_first() =~= Seq::<SignedDelegationV>::empty());
        assert(spec_enc_link_seq(ls.push(x)) == spec_enc_link(x) + spec_enc_link_seq(
            Seq::<SignedDelegationV>::empty(),
        ));
        assert(spec_enc_link_seq(Seq::<SignedDelegationV>::empty()) =~= Seq::<u8>::empty());
        assert(spec_enc_link_seq(ls) =~= Seq::<u8>::empty());
    } else {
        assert(ls.push(x)[0] == ls[0]);
        assert(ls.push(x).drop_first() =~= ls.drop_first().push(x));
        lemma_link_seq_push(ls.drop_first(), x);
        assert(spec_enc_link_seq(ls.push(x)) == spec_enc_link(ls[0]) + spec_enc_link_seq(
            ls.drop_first().push(x),
        ));
        assert(spec_enc_link_seq(ls) == spec_enc_link(ls[0]) + spec_enc_link_seq(ls.drop_first()));
    }
}

/// The encoding of a delegation chain: an array of links.
pub open spec fn spec_enc_links(ls: Seq<SignedDelegationV>) -> Seq<u8>
    recommends
        ls.len() <= u64::MAX,
{
    spec_array_head(ls.len() as u64) + spec_enc_link_seq(ls)
}

/// Appends the encoding of a delegation chain.
pub fn enc_links(out: &mut Vec<u8>, links: &Vec<SignedDelegation>)
    ensures
        final(out)@ =~= old(out)@ + spec_enc_links(links_view(links@)),
{
    enc_array_head(out, links.len() as u64);
    let ghost base = out@;
    let n = links.len();
    let mut i: usize = 0;
    while i < n
        invariant
            i <= n,
            n == links@.len(),
            out@ =~= base + spec_enc_link_seq(links_view(links@).take(i as int)),
        decreases n - i,
    {
        enc_link(out, &links[i]);
        proof {
            lemma_link_seq_push(links_view(links@).take(i as int), links@[i as int]@);
            assert(links_view(links@).take(i + 1) =~= links_view(links@).take(i as int).push(
                links@[i as int]@,
            ));
        }
        i += 1;
    }
    proof {
        assert(links_view(links@).take(n as int) =~= links_view(links@));
    }
}

/// Reads a delegation chain at `pos`.
pub fn dec_links(b: &Vec<u8>, pos: usize) -> (r: Option<(Vec<SignedDelegation>, usize)>)
    ensures
        r matches Some((v, end)) ==> {
            &&& pos < end <= b@.len()
            &&& end - pos == spec_enc_links(links_view(v@)).len()
            &&& is_at(b@, pos as int, spec_enc_links(links_view(v@)))
        },
        forall|ws: Seq<SignedDelegationV>|
            ws.len() <= u64::MAX && is_at(b@, pos as int, #[trigger] spec_enc_links(ws)) ==> (
            r matches Some((v, end)) && links_view(v@) == ws && end == pos + spec_enc_links(
                ws,
            ).len()),
{
    let r0 = dec_array_head(b, pos);
    let (n, p0) = match r0 {
        Some((n, p0)) => (n, p0),
        None => {
            proof {
                assert forall|ws: Seq<SignedDelegationV>|
                    ws.len() <= u64::MAX && is_at(
                        b@,
                        pos as int,
                        #[trigger] spec_enc_links(ws),
                    ) implies false by {
                    lemma_is_at_concat(
                        b@,
                        pos as int,
                        spec_array_head(ws.len() as u64),
                        spec_enc_link_seq(ws),
                    );
                }
            }
            return None;
        },
    };
    let mut acc: Vec<SignedDelegation> = Vec::new();
    let mut p = p0;
    let mut i: u64 = 0;
    proof {
        assert(links_view(acc@) =~= Seq::<SignedDelegationV>::empty());
        assert(spec_enc_link_seq(links_view(acc@)) =~= Seq::<u8>::empty());
        assert(b@.subrange(p0 as int, p0 as int) =~= Seq::<u8>::empty());
        assert forall|ws: Seq<SignedDelegationV>|
            ws.len() <= u64::MAX && is_at(b@, pos as int, #[trigger] spec_enc_links(ws)) implies {
            &&& ws.len() == n
            &&& ws.take(0) == links_view(acc@)
            &&& is_at(b@, p0 as int, spec_enc_link_seq(ws.skip(0)))
        } by {
            lemma_is_at_concat(
                b@,
                pos as int,
                spec_array_head(ws.len() as u64),
                spec_enc_link_seq(ws),
            );
            assert(ws.skip(0) =~= ws);
            assert(ws.take(0) =~= links_view(acc@));
        }
    }
    while i < n
        invariant
            i <= n,
            acc@.len() == i,
            pos < p0 <= b@.len(),
            p0 <= p <= b@.len(),
            is_at(b@, pos as int, spec_array_head(n)),
            p0 == pos + spec_array_head(n).len(),
            is_at(b@, p0 as int, spec_enc_link_seq(links_view(acc@))),
            p == p0 + spec_enc_link_seq(links_view(acc@)).len(),
            forall|ws: Seq<SignedDelegationV>|
                ws.len() <= u64::MAX && is_at(b@, pos as int, #[trigger] spec_enc_links(ws)) ==> {
                    &&& ws.len() == n
                    &&& ws.take(i as int) == links_view(acc@)
                    &&& is_at(b@, p as int, spec_enc_link_seq(ws.skip(i as int)))
                },
        decreases n - i,
    {
        let rl = dec_link(b, p);
        match rl {
            Some((l, p2)) => {
                proof {
                    lemma_link_seq_push(links_view(acc@), l@);
                    assert(links_view(acc@.push(l)) =~= links_view(acc@).push(l@));
                    lemma_is_at_join(
                        b@,
                        p0 as int,
                        spec_enc_link_seq(links_view(acc@)),
                        spec_enc_link(l@),
                    );
                    assert forall|ws: Seq<SignedDelegationV>|
                        ws.len() <= u64::MAX && is_at(
                            b@,
                            pos as int,
                            #[trigger] spec_enc_links(ws),
                        ) implies {
                        &&& ws.take(i + 1) == links_view(acc@.push(l))
                        &&& is_at(b@, p2 as int, spec_enc_link_seq(ws.skip(i + 1)))
                    } by {
                        assert(ws.len() == n);
                        assert(i < ws.len());
                        let tail = ws.skip(i as int);
                        assert(tail.len() > 0);
                        assert(spec_enc_link_seq(tail) == spec_enc_link(tail[0])
                            + spec_enc_link_seq(tail.drop_first()));
                        lemma_is_at_concat(
                            b@,
                            p as int,
                            spec_enc_link(tail[0]),
                            spec_enc_link_seq(tail.drop_first()),
                        );
                        assert(tail[0] == ws[i as int]);
                        assert(l@ == ws[i as int]);
                        assert(tail.drop_first() =~= ws.skip(i + 1));
                        assert(ws.take(i + 1) =~= ws.take(i as int).push(ws[i as int]));
                    }
                }
                acc.push(l);
                p = p2;
                i = i + 1;
            },
            None => {
                proof {
                    assert forall|ws: Seq<SignedDelegationV>|
                        ws.len() <= u64::MAX && is_at(
                            b@,
                            pos as int,
                            #[trigger] spec_enc_links(ws),
                        ) implies false by {
                        assert(ws.len() == n);
                        let tail = ws.skip(i as int);
                        assert(tail.len() > 0);
                        assert(spec_enc_link_seq(tail) == spec_enc_link(tail[0])
                            + spec_enc_link_seq(tail.drop_first()));
                        lemma_is_at_concat(
                            b@,
                            p as int,
                            spec_enc_link(tail[0]),
                            spec_enc_link_seq(tail.drop_first()),
                        );
                    }
                }
                return None;
            },
        }
    }
    proof {
        assert(links_view(acc@).len() == n);
        lemma_is_at_join(
            b@,
            pos as int,
            spec_array_head(n),
            spec_enc_link_seq(links_view(acc@)),
        );
        assert(is_at(b@, pos as int, spec_enc_links(links_view(acc@))));
        assert forall|ws: Seq<SignedDelegationV>|
            ws.len() <= u64::MAX && is_at(b@, pos as int, #[trigger] spec_enc_links(ws)) implies (
        links_view(acc@) == ws && p == pos + spec_enc_links(ws).len()) by {
            assert(ws.take(n as int) =~= ws);
        }
    }
    Some((acc, p))
}


/// The encoding of `ModelProvider`: a 3-pair map.
pub open spec fn spec_enc_provider(v: ModelProviderV) -> Seq<u8> {
    spec_map_head(3) + spec_text("api_key"@) + spec_text(v.api_key) + spec_text("api_base"@) + spec_enc_opt_text(v.api_base) + spec_text("model"@) + spec_text(v.model)
}

/// Positions of the parts of an encoded `ModelProvider` within a buffer.
proof fn lemma_provider_parts(b: Seq<u8>, pos: int, w: ModelProviderV)
    requires
        is_at(b, pos, spec_enc_provider(w)),
    ensures
        is_at(b, pos, spec_map_head(3)),
        is_at(b, pos + 1, spec_text("api_key"@)),
        is_at(b, pos + 1 + spec_text("api_key"@).len(), spec_text(w.api_key)),
        is_at(b, pos + 1 + spec_text("api_key"@).len() + spec_text(w.api_key).len(), spec_text("api_base"@)),
        is_at(b, pos + 1 + spec_text("api_key"@).len() + spec_text(w.api_key).len() + spec_text("api_base"@).len(), spec_enc_opt_text(w.api_base)),
        is_at(b, pos + 1 + spec_text("api_key"@).len() + spec_text(w.api_key).len() + spec_text("api_base"@).len() + spec_enc_opt_text(w.api_base).len(), spec_text("model"@)),
        is_at(b, pos + 1 + spec_text("api_key"@).len() + spec_text(w.api_key).len() + spec_text("api_base"@).len() + spec_enc_opt_text(w.api_base).len() + spec_text("model"@).len(), spec_text(w.model)),
{
    let s1 = spec_map_head(3);
    let s2 = spec_text("api_key"@);
    let s3 = spec_text(w.api_key);
    let s4 = spec_text("api_base"@);
    let s5 = spec_enc_opt_text(w.api_base);
    let s6 = spec_text("model"@);
    let s7 = spec_text(w.model);
    lemma_is_at_concat(b, pos, s1 + s2 + s3 + s4 + s5 + s6, s7);
    lemma_is_at_concat(b, pos, s1 + s2 + s3 + s4 + s5, s6);
    lemma_is_at_concat(b, pos, s1 + s2 + s3 + s4, s5);
    lemma_is_at_concat(b, pos, s1 + s2 + s3, s4);
    lemma_is_at_concat(b, pos, s1 + s2, s3);
    lemma_is_at_concat(b, pos, s1, s2);
    assert(s1.len() == 1);
}

/// Appends the encoding of `ModelProvider`.
pub fn enc_provider(out: &mut Vec<u8>, v: &ModelProvider)
    ensures
        final(out)@ =~= old(out)@ + spec_enc_provider(v@),
{
    enc_map_head(out, 3);
    enc_text(out, "api_key");
    enc_text(out, v.api_key.as_str());
    enc_text(out, "api_base");
    enc_opt_text(out, &v.api_base);
    enc_text(out, "model");
    enc_text(out, v.model.as_str());
}

/// Reads a `ModelProvider` at `pos`.
#[verifier::spinoff_prover]
#[verifier::rlimit(100)]
pub fn dec_provider(b: &Vec<u8>, pos: usize) -> (r: Option<(ModelProvider, usize)>)
    ensures
        r matches Some((v, end)) ==> {
            &&& pos < end <= b@.len()
            &&& end - pos == spec_enc_provider(v@).len()
            &&& is_at(b@, pos as int, spec_enc_provider(v@))
        },
        forall|w: ModelProviderV|
            is_at(b@, pos as int, #[trigger] spec_enc_provider(w)) ==> (r matches Some(
                (v, end),
            ) && v@ == w && end == pos + spec_enc_provider(w).len()),
{
    proof {
        reveal_strlit("api_key");
        reveal_strlit("api_base");
        reveal_strlit("model");
    }
    let r1 = dec_map_head(b, pos);
    let p1 = match r1 {
        Some((n1, p1)) if n1 == 3 => p1,
        _ => {
            proof {
                assert forall|w: ModelProviderV|
                    is_at(b@, pos as int, #[trigger] spec_enc_provider(w)) implies false by {
                    lemma_provider_parts(b@, pos as int, w);
                }
            }
            return None;
        },
    };
    let k1 = dec_text(b, p1);
    let (ks1, p2) = match k1 {
        Some((ks1, q)) => (ks1, q),
        None => {
            proof {
                assert forall|w: ModelProviderV|
                    is_at(b@, pos as int, #[trigger] spec_enc_provider(w)) implies false by {
                    lemma_provider_parts(b@, pos as int, w);
                }
            }
            return None;
        },
    };
    if !str_eq(ks1.as_str(), "api_key") {
        proof {
            assert forall|w: ModelProviderV|
                is_at(b@, pos as int, #[trigger] spec_enc_provider(w)) implies false by {
                lemma_provider_parts(b@, pos as int, w);
            }
        }
        return None;
    }
    let r_api_key = dec_text(b, p2);
    let (api_key, p3) = match r_api_key {
        Some((api_key, q)) => (api_key, q),
        None => {
            proof {
                assert forall|w: ModelProviderV|
                    is_at(b@, pos as int, #[trigger] spec_enc_provider(w)) implies false by {
                    lemma_provider_parts(b@, pos as int, w);
                }
            }
            return None;
        },
    };
    let k2 = dec_text(b, p3);
    let (ks2, p4) = match k2 {
        Some((ks2, q)) => (ks2, q),
        None => {
            proof {
                assert forall|w: ModelProviderV|
                    is_at(b@, pos as int, #[trigger] spec_enc_provider(w)) implies false by {
                    lemma_provider_parts(b@, pos as int, w);
                }
            }
            return None;
        },
    };
    if !str_eq(ks2.as_str(), "api_base") {
        proof {
            assert forall|w: ModelProviderV|
                is_at(b@, pos as int, #[trigger] spec_enc_provider(w)) implies false by {
                lemma_provider_parts(b@, pos as int, w);
            }
        }
        return None;
    }
    let r_api_base = dec_opt_text(b, p4);
    let (api_base, p5) = match r_api_base {
        Some((api_base, q)) => (api_base, q),
        None => {
            proof {
                assert forall|w: ModelProviderV|
                    is_at(b@, pos as int, #[trigger] spec_enc_provider(w)) implies false by {
                    lemma_provider_parts(b@, pos as int, w);
                }
            }
            return None;
        },
    };
    let k3 = dec_text(b, p5);
    let (ks3, p6) = match k3 {
        Some((ks3, q)) => (ks3, q),
        None => {
            proof {
                assert forall|w: ModelProviderV|
                    is_at(b@, pos as int, #[trigger] spec_enc_provider(w)) implies false by {
                    lemma_provider_parts(b@, pos as int, w);
                }
            }
            return None;
        },
    };
    if !str_eq(ks3.as_str(), "model") {
        proof {
            assert forall|w: ModelProviderV|
                is_at(b@, pos as int, #[trigger] spec_enc_provider(w)) implies false by {
                lemma_provider_parts(b@, pos as int, w);
            }
        }
        return None;
    }
    let r_model = dec_text(b, p6);
    let (model, p7) = match r_model {
        Some((model, q)) => (model, q),
        None => {
            proof {
                assert forall|w: ModelProviderV|
                    is_at(b@, pos as int, #[trigger] spec_enc_provider(w)) implies false by {
                    lemma_provider_parts(b@, pos as int, w);
                }
            }
            return None;
        },
    };
    let v = ModelProvider { api_key, api_base, model };
    proof {
        let s1s = spec_map_head(3);
        let s2s = spec_text("api_key"@);
        let s3s = spec_text(v@.api_key);
        let s4s = spec_text("api_base"@);
        let s5s = spec_enc_opt_text(v@.api_base);
        let s6s = spec_text("model"@);
        let s7s = spec_text(v@.model);
        assert(is_at(b@, pos as int, s1s)) by {
            assert(b@.subrange(pos as int, p1 as int) =~= spec_map_head(3));
        }
        lemma_is_at_join(b@, pos as int, s1s, s2s);
        lemma_is_at_join(b@, pos as int, s1s + s2s, s3s);
        lemma_is_at_join(b@, pos as int, s1s + s2s + s3s, s4s);
        lemma_is_at_join(b@, pos as int, s1s + s2s + s3s + s4s, s5s);
        lemma_is_at_join(b@, pos as int, s1s + s2s + s3s + s4s + s5s, s6s);
        lemma_is_at_join(b@, pos as int, s1s + s2s + s3s + s4s + s5s + s6s, s7s);
        assert(is_at(b@, pos as int, spec_enc_provider(v@)));
        assert forall|w: ModelProviderV|
            is_at(b@, pos as int, #[trigger] spec_enc_provider(w)) implies (v@ == w
            && p7 == pos + spec_enc_provider(w).len()) by {
            lemma_provider_parts(b@, pos as int, w);
            assert(v@ =~= w);
        }
    }
    Some((v, p7))
}


/// The encoding of an optional `ModelProvider`: null, or the value.
pub open spec fn spec_enc_opt_provider(o: Option<ModelProviderV>) -> Seq<u8> {
    match o {
        None => spec_null(),
        Some(a) => spec_enc_provider(a),
    }
}

/// Appends the encoding of an optional `ModelProvider`.
pub fn enc_opt_provider(out: &mut Vec<u8>, o: &Option<ModelProvider>)
    ensures
        final(out)@ =~= old(out)@ + spec_enc_opt_provider(provider_view(*o)),
{
    match o {
        None => enc_null(out),
        Some(a) => enc_provider(out, a),
    }
}

/// Reads an optional `ModelProvider` at `pos`.
pub fn dec_opt_provider(b: &Vec<u8>, pos: usize) -> (r: Option<(Option<ModelProvider>, usize)>)
    ensures
        r matches Some((o, end)) ==> {
            &&& pos < end <= b@.len()
            &&& end - pos == spec_enc_opt_provider(provider_view(o)).len()
            &&& is_at(b@, pos as int, spec_enc_opt_provider(provider_view(o)))
        },
        forall|o: Option<ModelProviderV>|
            is_at(b@, pos as int, #[trigger] spec_enc_opt_provider(o)) ==> (r matches Some(
                (v, end),
            ) && provider_view(v) == o && end == pos + spec_enc_opt_provider(o).len()),
{
    if pos < b.len() && b[pos] == 0xf6 {
        proof {
            assert(b@.subrange(pos as int, pos + 1) =~= spec_null());
            assert forall|o: Option<ModelProviderV>|
                is_at(b@, pos as int, #[trigger] spec_enc_opt_provider(o)) implies o
                == None::<ModelProviderV> by {
                match o {
                    Some(a) => {
                        lemma_provider_parts(b@, pos as int, a);
                        lemma_first_byte(b@, pos as int, spec_map_head(3));
                        lemma_head_first_byte(5, 3);
                    },
                    None => {},
                }
            }
        }
        Some((None, pos + 1))
    } else {
        match dec_provider(b, pos) {
            Some((a, end)) => {
                proof {
                    if is_at(b@, pos as int, spec_enc_opt_provider(None)) {
                        lemma_first_byte(b@, pos as int, spec_null());
                    }
                }
                Some((Some(a), end))
            },
            None => {
                proof {
                    assert forall|o: Option<ModelProviderV>|
                        is_at(b@, pos as int, #[trigger] spec_enc_opt_provider(o)) implies
                    false by {
                        match o {
                            Some(a) => {
                                assert(is_at(b@, pos as int, spec_enc_provider(a)));
                            },
                            None => {
                                lemma_first_byte(b@, pos as int, spec_null());
                            },
                        }
                    }
                }
                None
            },
        }
    }
}


/// The encoding of `InternetIdentityAuth`: a 4-pair map.
pub open spec fn spec_enc_auth(v: InternetIdentityAuthV) -> Seq<u8> {
    spec_map_head(4) + spec_text("user_pubkey"@) + spec_bytes(v.user_pubkey) + spec_text("delegations"@) + spec_enc_links(v.delegations) + spec_text("authn_method"@) + spec_text(v.authn_method) + spec_text("origin"@) + spec_text(v.origin)
}

/// Positions of the parts of an encoded `InternetIdentityAuth` within a buffer.
proof fn lemma_auth_parts(b: Seq<u8>, pos: int, w: InternetIdentityAuthV)
    requires
        is_at(b, pos, spec_enc_auth(w)),
    ensures
        is_at(b, pos, spec_map_head(4)),
        is_at(b, pos + 1, spec_text("user_pubkey"@)),
        is_at(b, pos + 1 + spec_text("user_pubkey"@).len(), spec_bytes(w.user_pubkey)),
        is_at(b, pos + 1 + spec_text("user_pubkey"@).len() + spec_bytes(w.user_pubkey).len(), spec_text("delegations"@)),
        is_at(b, pos + 1 + spec_text("user_pubkey"@).len() + spec_bytes(w.user_pubkey).len() + spec_text("delegations"@).len(), spec_enc_links(w.delegations)),
        is_at(b, pos + 1 + spec_text("user_pubkey"@).len() + spec_bytes(w.user_pubkey).len() + spec_text("delegations"@).len() + spec_enc_links(w.delegations).len(), spec_text("authn_method"@)),
        is_at(b, pos + 1 + spec_text("user_pubkey"@).len() + spec_bytes(w.user_pubkey).len() + spec_text("delegations"@).len() + spec_enc_links(w.delegations).len() + spec_text("authn_method"@).len(), spec_text(w.authn_method)),
        is_at(b, pos + 1 + spec_text("user_pubkey"@).len() + spec_bytes(w.user_pubkey).len() + spec_text("delegations"@).len() + spec_enc_links(w.delegations).len() + spec_text("authn_method"@).len() + spec_text(w.authn_method).len(), spec_text("origin"@)),
        is_at(b, pos + 1 + spec_text("user_pubkey"@).len() + spec_bytes(w.user_pubkey).len() + spec_text("delegations"@).len() + spec_enc_links(w.delegations).len() + spec_text("authn_method"@).len() + spec_text(w.authn_method).len() + spec_text("origin"@).len(), spec_text(w.origin)),
{
    let s1 = spec_map_head(4);
    let s2 = spec_text("user_pubkey"@);
    let s3 = spec_bytes(w.user_pubkey);
    let s4 = spec_text("delegations"@);
    let s5 = spec_enc_links(w.delegations);
    let s6 = spec_text("authn_method"@);
    let s7 = spec_text(w.authn_method);
    let s8 = spec_text("origin"@);
    let s9 = spec_text(w.origin);
    lemma_is_at_concat(b, pos, s1 + s2 + s3 + s4 + s5 + s6 + s7 + s8, s9);
    lemma_is_at_concat(b, pos, s1 + s2 + s3 + s4 + s5 + s6 + s7, s8);
    lemma_is_at_concat(b, pos, s1 + s2 + s3 + s4 + s5 + s6, s7);
    lemma_is_at_concat(b, pos, s1 + s2 + s3 + s4 + s5, s6);
    lemma_is_at_concat(b, pos, s1 + s2 + s3 + s4, s5);
    lemma_is_at_concat(b, pos, s1 + s2 + s3, s4);
    lemma_is_at_concat(b, pos, s1 + s2, s3);
    lemma_is_at_concat(b, pos, s1, s2);
    assert(s1.len() == 1);
}

/// Appends the encoding of `InternetIdentityAuth`.
pub fn enc_auth(out: &mut Vec<u8>, v: &InternetIdentityAuth)
    ensures
        final(out)@ =~= old(out)@ + spec_enc_auth(v@),
{
    enc_map_head(out, 4);
    enc_text(out, "user_pubkey");
    enc_bytes(out, v.user_pubkey.as_slice());
    enc_text(out, "delegations");
    enc_links(out, &v.delegations);
    enc_text(out, "authn_method");
    enc_text(out, v.authn_method.as_str());
    enc_text(out, "origin");
    enc_text(out, v.origin.as_str());
}

/// Reads a `InternetIdentityAuth` at `pos`.
#[verifier::spinoff_prover]
#[verifier::rlimit(100)]
pub fn dec_auth(b: &Vec<u8>, pos: usize) -> (r: Option<(InternetIdentityAuth, usize)>)
    ensures
        r matches Some((v, end)) ==> {
            &&& pos < end <= b@.len()
            &&& end - pos == spec_enc_auth(v@).len()
            &&& is_at(b@, pos as int, spec_enc_auth(v@))
        },
        forall|w: InternetIdentityAuthV|
            w.wf() && is_at(b@, pos as int, #[trigger] spec_enc_auth(w)) ==> (r matches Some(
                (v, end),
            ) && v@ == w && end == pos + spec_enc_auth(w).len()),
{
    proof {
        reveal_strlit("user_pubkey");
        reveal_strlit("delegations");
        reveal_strlit("authn_method");
        reveal_strlit("origin");
    }
    let r1 = dec_map_head(b, pos);
    let p1 = match r1 {
        Some((n1, p1)) if n1 == 4 => p1,
        _ => {
            proof {
                assert forall|w: InternetIdentityAuthV|
                    w.wf() && is_at(b@, pos as int, #[trigger] spec_enc_auth(w)) implies false by {
                    lemma_auth_parts(b@, pos as int, w);
                }
            }
            return None;
        },
    };
    let k1 = dec_text(b, p1);
    let (ks1, p2) = match k1 {
        Some((ks1, q)) => (ks1, q),
        None => {
            proof {
                assert forall|w: InternetIdentityAuthV|
                    w.wf() && is_at(b@, pos as int, #[trigger] spec_enc_auth(w)) implies false by {
                    lemma_auth_parts(b@, pos as int, w);
                }
            }
            return None;
        },
    };
    if !str_eq(ks1.as_str(), "user_pubkey") {
        proof {
            assert forall|w: InternetIdentityAuthV|
                w.wf() && is_at(b@, pos as int, #[trigger] spec_enc_auth(w)) implies false by {
                lemma_auth_parts(b@, pos as int, w);
            }
        }
        return None;
    }
    let r_user_pubkey = dec_bytes(b, p2);
    let (user_pubkey, p3) = match r_user_pubkey {
        Some((user_pubkey, q)) => (user_pubkey, q),
        None => {
            proof {
                assert forall|w: InternetIdentityAuthV|
                    w.wf() && is_at(b@, pos as int, #[trigger] spec_enc_auth(w)) implies false by {
                    lemma_auth_parts(b@, pos as int, w);
                }
            }
            return None;
        },
    };
    let k2 = dec_text(b, p3);
    let (ks2, p4) = match k2 {
        Some((ks2, q)) => (ks2, q),
        None => {
            proof {
                assert forall|w: InternetIdentityAuthV|
                    w.wf() && is_at(b@, pos as int, #[trigger] spec_enc_auth(w)) implies false by {
                    lemma_auth_parts(b@, pos as int, w);
                }
            }
            return None;
        },
    };
    if !str_eq(ks2.as_str(), "delegations") {
        proof {
            assert forall|w: InternetIdentityAuthV|
                w.wf() && is_at(b@, pos as int, #[trigger] spec_enc_auth(w)) implies false by {
                lemma_auth_parts(b@, pos as int, w);
            }
        }
        return None;
    }
    let r_delegations = dec_links(b, p4);
    let (delegations, p5) = match r_delegations {
        Some((delegations, q)) => (delegations, q),
        None => {
            proof {
                assert forall|w: InternetIdentityAuthV|
                    w.wf() && is_at(b@, pos as int, #[trigger] spec_enc_auth(w)) implies false by {
                    lemma_auth_parts(b@, pos as int, w);
                }
            }
            return None;
        },
    };
    let k3 = dec_text(b, p5);
    let (ks3, p6) = match k3 {
        Some((ks3, q)) => (ks3, q),
        None => {
            proof {
                assert forall|w: InternetIdentityAuthV|
                    w.wf() && is_at(b@, pos as int, #[trigger] spec_enc_auth(w)) implies false by {
                    lemma_auth_parts(b@, pos as int, w);
                }
            }
            return None;
        },
    };
    if !str_eq(ks3.as_str(), "authn_method") {
        proof {
            assert forall|w: InternetIdentityAuthV|
                w.wf() && is_at(b@, pos as int, #[trigger] spec_enc_auth(w)) implies false by {
                lemma_auth_parts(b@, pos as int, w);
            }
        }
        return None;
    }
    let r_authn_method = dec_text(b, p6);
    let (authn_method, p7) = match r_authn_method {
        Some((authn_method, q)) => (authn_method, q),
        None => {
            proof {
                assert forall|w: InternetIdentityAuthV|
                    w.wf() && is_at(b@, pos as int, #[trigger] spec_enc_auth(w)) implies false by {
                    lemma_auth_parts(b@, pos as int, w);
                }
            }
            return None;
        },
    };
    let k4 = dec_text(b, p7);
    let (ks4, p8) = match k4 {
        Some((ks4, q)) => (ks4, q),
        None => {
            proof {
                assert forall|w: InternetIdentityAuthV|
                    w.wf() && is_at(b@, pos as int, #[trigger] spec_enc_auth(w)) implies false by {
                    lemma_auth_parts(b@, pos as int, w);
                }
            }
            return None;
        },
    };
    if !str_eq(ks4.as_str(), "origin") {
        proof {
            assert forall|w: InternetIdentityAuthV|
                w.wf() && is_at(b@, pos as int, #[trigger] spec_enc_auth(w)) implies false by {
                lemma_auth_parts(b@, pos as int, w);
            }
        }
        return None;
    }
    let r_origin = dec_text(b, p8);
    let (origin, p9) = match r_origin {
        Some((origin, q)) => (origin, q),
        None => {
            proof {
                assert forall|w: InternetIdentityAuthV|
                    w.wf() && is_at(b@, pos as int, #[trigger] spec_enc_auth(w)) implies false by {
                    lemma_auth_parts(b@, pos as int, w);
                }
            }
            return None;
        },
    };
    let v = InternetIdentityAuth { user_pubkey, delegations, authn_method, origin };
    proof {
        let s1s = spec_map_head(4);
        let s2s = spec_text("user_pubkey"@);
        let s3s = spec_bytes(v@.user_pubkey);
        let s4s = spec_text("delegations"@);
        let s5s = spec_enc_links(v@.delegations);
        let s6s = spec_text("authn_method"@);
        let s7s = spec_text(v@.authn_method);
        let s8s = spec_text("origin"@);
        let s9s = spec_text(v@.origin);
        assert(is_at(b@, pos as int, s1s)) by {
            assert(b@.subrange(pos as int, p1 as int) =~= spec_map_head(4));
        }
        lemma_is_at_join(b@, pos as int, s1s, s2s);
        lemma_is_at_join(b@, pos as int, s1s + s2s, s3s);
        lemma_is_at_join(b@, pos as int, s1s + s2s + s3s, s4s);
        lemma_is_at_join(b@, pos as int, s1s + s2s + s3s + s4s, s5s);
        lemma_is_at_join(b@, pos as int, s1s + s2s + s3s + s4s + s5s, s6s);
        lemma_is_at_join(b@, pos as int, s1s + s2s + s3s + s4s + s5s + s6s, s7s);
        lemma_is_at_join(b@, pos as int, s1s + s2s + s3s + s4s + s5s + s6s + s7s, s8s);
        lemma_is_at_join(b@, pos as int, s1s + s2s + s3s + s4s + s5s + s6s + s7s + s8s, s9s);
        assert(is_at(b@, pos as int, spec_enc_auth(v@)));
        assert forall|w: InternetIdentityAuthV|
            w.wf() && is_at(b@, pos as int, #[trigger] spec_enc_auth(w)) implies (v@ == w
            && p9 == pos + spec_enc_auth(w).len()) by {
            lemma_auth_parts(b@, pos as int, w);
            assert(v@ =~= w);
        }
    }
    Some((v, p9))
}


/// The encoding of an optional `InternetIdentityAuth`: null, or the value.
pub open spec fn spec_enc_opt_auth(o: Option<InternetIdentityAuthV>) -> Seq<u8> {
    match o {
        None => spec_null(),
        Some(a) => spec_enc_auth(a),
    }
}

/// Appends the encoding of an optional `InternetIdentityAuth`.
pub fn enc_opt_auth(out: &mut Vec<u8>, o: &Option<InternetIdentityAuth>)
    ensures
        final(out)@ =~= old(out)@ + spec_enc_opt_auth(opt_auth_view(*o)),
{
    match o {
        None => enc_null(out),
        Some(a) => enc_auth(out, a),
    }
}

/// Reads an optional `InternetIdentityAuth` at `pos`.
pub fn dec_opt_auth(b: &Vec<u8>, pos: usize) -> (r: Option<(Option<InternetIdentityAuth>, usize)>)
    ensures
        r matches Some((o, end)) ==> {
            &&& pos < end <= b@.len()
            &&& end - pos == spec_enc_opt_auth(opt_auth_view(o)).len()
            &&& is_at(b@, pos as int, spec_enc_opt_auth(opt_auth_view(o)))
        },
        forall|o: Option<InternetIdentityAuthV>|
            (match o {
                Some(a) => a.wf(),
                None => true,
            }) && is_at(b@, pos as int, #[trigger] spec_enc_opt_auth(o)) ==> (r matches Some(
                (v, end),
            ) && opt_auth_view(v) == o && end == pos + spec_enc_opt_auth(o).len()),
{
    if pos < b.len() && b[pos] == 0xf6 {
        proof {
            assert(b@.subrange(pos as int, pos + 1) =~= spec_null());
            assert forall|o: Option<InternetIdentityAuthV>|
                (match o {
                Some(a) => a.wf(),
                None => true,
            }) && is_at(b@, pos as int, #[trigger] spec_enc_opt_auth(o)) implies o
                == None::<InternetIdentityAuthV> by {
                match o {
                    Some(a) => {
                        lemma_auth_parts(b@, pos as int, a);
                        lemma_first_byte(b@, pos as int, spec_map_head(4));
                        lemma_head_first_byte(5, 4);
                    },
                    None => {},
                }
            }
        }
        Some((None, pos + 1))
    } else {
        match dec_auth(b, pos) {
            Some((a, end)) => {
                proof {
                    if is_at(b@, pos as int, spec_enc_opt_auth(None)) {
                        lemma_first_byte(b@, pos as int, spec_null());
                    }
                }
                Some((Some(a), end))
            },
            None => {
                proof {
                    assert forall|o: Option<InternetIdentityAuthV>|
                        (match o {
                Some(a) => a.wf(),
                None => true,
            }) && is_at(b@, pos as int, #[trigger] spec_enc_opt_auth(o)) implies
                    false by {
                        match o {
                            Some(a) => {
                                assert(is_at(b@, pos as int, spec_enc_auth(a)));
                            },
                            None => {
                                lemma_first_byte(b@, pos as int, spec_null());
                            },
                        }
                    }
                }
                None
            },
        }
    }
}


/// The four optional provider entries of the assistant configuration, as
/// one run of key/value pairs.
pub open spec fn spec_enc_providers4(
    g: Option<ModelProviderV>,
    d: Option<ModelProviderV>,
    x: Option<ModelProviderV>,
    o: Option<ModelProviderV>,
) -> Seq<u8> {
    spec_text("gemini"@) + spec_enc_opt_provider(g) + spec_text("deepseek"@)
        + spec_enc_opt_provider(d) + spec_text("xai"@) + spec_enc_opt_provider(x) + spec_text(
        "openai"@,
    ) + spec_enc_opt_provider(o)
}

/// Positions of the parts of an encoded provider run within a buffer.
proof fn lemma_providers4_parts(
    b: Seq<u8>,
    pos: int,
    g: Option<ModelProviderV>,
    d: Option<ModelProviderV>,
    x: Option<ModelProviderV>,
    o: Option<ModelProviderV>,
)
    requires
        is_at(b, pos, spec_enc_providers4(g, d, x, o)),
    ensures
        is_at(b, pos, spec_text("gemini"@)),
        is_at(b, pos + spec_text("gemini"@).len(), spec_enc_opt_provider(g)),
        is_at(
            b,
            pos + spec_text("gemini"@).len() + spec_enc_opt_provider(g).len(),
            spec_text("deepseek"@),
        ),
        is_at(
            b,
            pos + spec_text("gemini"@).len() + spec_enc_opt_provider(g).len() + spec_text(
                "deepseek"@,
            ).len(),
            spec_enc_opt_provider(d),
        ),
        is_at(
            b,
            pos + spec_text("gemini"@).len() + spec_enc_opt_provider(g).len() + spec_text(
                "deepseek"@,
            ).len() + spec_enc_opt_provider(d).len(),
            spec_text("xai"@),
        ),
        is_at(
            b,
            pos + spec_text("gemini"@).len() + spec_enc_opt_provider(g).len() + spec_text(
                "deepseek"@,
            ).len() + spec_enc_opt_provider(d).len() + spec_text("xai"@).len(),
            spec_enc_opt_provider(x),
        ),
        is_at(
            b,
            pos + spec_text("gemini"@).len() + spec_enc_opt_provider(g).len() + spec_text(
                "deepseek"@,
            ).len() + spec_enc_opt_provider(d).len() + spec_text("xai"@).len()
                + spec_enc_opt_provider(x).len(),
            spec_text("openai"@),
        ),
        is_at(
            b,
            pos + spec_text("gemini"@).len() + spec_enc_opt_provider(g).len() + spec_text(
                "deepseek"@,
            ).len() + spec_enc_opt_provider(d).len() + spec_text("xai"@).len()
                + spec_enc_opt_provider(x).len() + spec_text("openai"@).len(),
            spec_enc_opt_provider(o),
        ),
{
    let s1 = spec_text("gemini"@);
    let s2 = spec_enc_opt_provider(g);
    let s3 = spec_text("deepseek"@);
    let s4 = spec_enc_opt_provider(d);
    let s5 = spec_text("xai"@);
    let s6 = spec_enc_opt_provider(x);
    let s7 = spec_text("openai"@);
    let s8 = spec_enc_opt_provider(o);
    lemma_is_at_concat(b, pos, s1 + s2 + s3 + s4 + s5 + s6 + s7, s8);
    lemma_is_at_concat(b, pos, s1 + s2 + s3 + s4 + s5 + s6, s7);
    lemma_is_at_concat(b, pos, s1 + s2 + s3 + s4 + s5, s6);
    lemma_is_at_concat(b, pos, s1 + s2 + s3 + s4, s5);
    lemma_is_at_concat(b, pos, s1 + s2 + s3, s4);
    lemma_is_at_concat(b, pos, s1 + s2, s3);
    lemma_is_at_concat(b, pos, s1, s2);
}

/// Appends the four provider entries.
#[verifier::spinoff_prover]
#[verifier::rlimit(100)]
fn enc_providers4(
    out: &mut Vec<u8>,
    g: &Option<ModelProvider>,
    d: &Option<ModelProvider>,
    x: &Option<ModelProvider>,
    o: &Option<ModelProvider>,
)
    ensures
        final(out)@ =~= old(out)@ + spec_enc_providers4(
            provider_view(*g),
            provider_view(*d),
            provider_view(*x),
            provider_view(*o),
        ),
{
    enc_text(out, "gemini");
    enc_opt_provider(out, g);
    enc_text(out, "deepseek");
    enc_opt_provider(out, d);
    enc_text(out, "xai");
    enc_opt_provider(out, x);
    enc_text(out, "openai");
    enc_opt_provider(out, o);
}

/// Reads the four provider entries at `pos`.
#[verifier::spinoff_prover]
#[verifier::rlimit(100)]
fn dec_providers4(b: &Vec<u8>, pos: usize) -> (r: Option<
    ((Option<ModelProvider>, Option<ModelProvider>, Option<ModelProvider>, Option<ModelProvider>),
    usize),
>)
    ensures
        r matches Some((t, end)) ==> {
            &&& pos < end <= b@.len()
            &&& end - pos == spec_enc_providers4(
                provider_view(t.0),
                provider_view(t.1),
                provider_view(t.2),
                provider_view(t.3),
            ).len()
            &&& is_at(
                b@,
                pos as int,
                spec_enc_providers4(
                    provider_view(t.0),
                    provider_view(t.1),
                    provider_view(t.2),
                    provider_view(t.3),
                ),
            )
        },
        forall|g: Option<ModelProviderV>, d: Option<ModelProviderV>, x: Option<ModelProviderV>, o: Option<ModelProviderV>|
            is_at(b@, pos as int, #[trigger] spec_enc_providers4(g, d, x, o)) ==> (r matches Some(
                (t, end),
            ) && provider_view(t.0) == g && provider_view(t.1) == d && provider_view(t.2) == x
                && provider_view(t.3) == o && end == pos + spec_enc_providers4(g, d, x, o).len()),
{
    proof {
        reveal_strlit("gemini");
        reveal_strlit("deepseek");
        reveal_strlit("xai");
        reveal_strlit("openai");
    }
    let k1 = dec_text(b, pos);
    let (ks1, p1) = match k1 {
        Some((ks1, q)) => (ks1, q),
        None => {
            proof {
                assert forall|g: Option<ModelProviderV>, d: Option<ModelProviderV>, x: Option<ModelProviderV>, o: Option<ModelProviderV>|
                    is_at(b@, pos as int, #[trigger] spec_enc_providers4(g, d, x, o)) implies false by {
                    lemma_providers4_parts(b@, pos as int, g, d, x, o);
                }
            }
            return None;
        },
    };
    if !str_eq(ks1.as_str(), "gemini") {
        proof {
            assert forall|g: Option<ModelProviderV>, d: Option<ModelProviderV>, x: Option<ModelProviderV>, o: Option<ModelProviderV>|
                is_at(b@, pos as int, #[trigger] spec_enc_providers4(g, d, x, o)) implies false by {
                lemma_providers4_parts(b@, pos as int, g, d, x, o);
            }
        }
        return None;
    }
    let v1 = dec_opt_provider(b, p1);
    let (gemini, p2) = match v1 {
        Some((gemini, q)) => (gemini, q),
        None => {
            proof {
                assert forall|g: Option<ModelProviderV>, d: Option<ModelProviderV>, x: Option<ModelProviderV>, o: Option<ModelProviderV>|
                    is_at(b@, pos as int, #[trigger] spec_enc_providers4(g, d, x, o)) implies false by {
                    lemma_providers4_parts(b@, pos as int, g, d, x, o);
                }
            }
            return None;
        },
    };
    let k2 = dec_text(b, p2);
    let (ks2, p3) = match k2 {
        Some((ks2, q)) => (ks2, q),
        None => {
            proof {
                assert forall|g: Option<ModelProviderV>, d: Option<ModelProviderV>, x: Option<ModelProviderV>, o: Option<ModelProviderV>|
                    is_at(b@, pos as int, #[trigger] spec_enc_providers4(g, d, x, o)) implies false by {
                    lemma_providers4_parts(b@, pos as int, g, d, x, o);
                }
            }
            return None;
        },
    };
    if !str_eq(ks2.as_str(), "deepseek") {
        proof {
            assert forall|g: Option<ModelProviderV>, d: Option<ModelProviderV>, x: Option<ModelProviderV>, o: Option<ModelProviderV>|
                is_at(b@, pos as int, #[trigger] spec_enc_providers4(g, d, x, o)) implies false by {
                lemma_providers4_parts(b@, pos as int, g, d, x, o);
            }
        }
        return None;
    }
    let v2 = dec_opt_provider(b, p3);
    let (deepseek, p4) = match v2 {
        Some((deepseek, q)) => (deepseek, q),
        None => {
            proof {
                assert forall|g: Option<ModelProviderV>, d: Option<ModelProviderV>, x: Option<ModelProviderV>, o: Option<ModelProviderV>|
                    is_at(b@, pos as int, #[trigger] spec_enc_providers4(g, d, x, o)) implies false by {
                    lemma_providers4_parts(b@, pos as int, g, d, x, o);
                }
            }
            return None;
        },
    };
    let k3 = dec_text(b, p4);
    let (ks3, p5) = match k3 {
        Some((ks3, q)) => (ks3, q),
        None => {
            proof {
                assert forall|g: Option<ModelProviderV>, d: Option<ModelProviderV>, x: Option<ModelProviderV>, o: Option<ModelProviderV>|
                    is_at(b@, pos as int, #[trigger] spec_enc_providers4(g, d, x, o)) implies false by {
                    lemma_providers4_parts(b@, pos as int, g, d, x, o);
                }
            }
            return None;
        },
    };
    if !str_eq(ks3.as_str(), "xai") {
        proof {
            assert forall|g: Option<ModelProviderV>, d: Option<ModelProviderV>, x: Option<ModelProviderV>, o: Option<ModelProviderV>|
                is_at(b@, pos as int, #[trigger] spec_enc_providers4(g, d, x, o)) implies false by {
                lemma_providers4_parts(b@, pos as int, g, d, x, o);
            }
        }
        return None;
    }
    let v3 = dec_opt_provider(b, p5);
    let (xai, p6) = match v3 {
        Some((xai, q)) => (xai, q),
        None => {
            proof {
                assert forall|g: Option<ModelProviderV>, d: Option<ModelProviderV>, x: Option<ModelProviderV>, o: Option<ModelProviderV>|
                    is_at(b@, pos as int, #[trigger] spec_enc_providers4(g, d, x, o)) implies false by {
                    lemma_providers4_parts(b@, pos as int, g, d, x, o);
                }
            }
            return None;
        },
    };
    let k4 = dec_text(b, p6);
    let (ks4, p7) = match k4 {
        Some((ks4, q)) => (ks4, q),
        None => {
            proof {
                assert forall|g: Option<ModelProviderV>, d: Option<ModelProviderV>, x: Option<ModelProviderV>, o: Option<ModelProviderV>|
                    is_at(b@, pos as int, #[trigger] spec_enc_providers4(g, d, x, o)) implies false by {
                    lemma_providers4_parts(b@, pos as int, g, d, x, o);
                }
            }
            return None;
        },
    };
    if !str_eq(ks4.as_str(), "openai") {
        proof {
            assert forall|g: Option<ModelProviderV>, d: Option<ModelProviderV>, x: Option<ModelProviderV>, o: Option<ModelProviderV>|
                is_at(b@, pos as int, #[trigger] spec_enc_providers4(g, d, x, o)) implies false by {
                lemma_providers4_parts(b@, pos as int, g, d, x, o);
            }
        }
        return None;
    }
    let v4 = dec_opt_provider(b, p7);
    let (openai, p8) = match v4 {
        Some((openai, q)) => (openai, q),
        None => {
            proof {
                assert forall|g: Option<ModelProviderV>, d: Option<ModelProviderV>, x: Option<ModelProviderV>, o: Option<ModelProviderV>|
                    is_at(b@, pos as int, #[trigger] spec_enc_providers4(g, d, x, o)) implies false by {
                    lemma_providers4_parts(b@, pos as int, g, d, x, o);
                }
            }
            return None;
        },
    };
    proof {
        let s1s = spec_text("gemini"@);
        let s2s = spec_enc_opt_provider(provider_view(gemini));
        let s3s = spec_text("deepseek"@);
        let s4s = spec_enc_opt_provider(provider_view(deepseek));
        let s5s = spec_text("xai"@);
        let s6s = spec_enc_opt_provider(provider_view(xai));
        let s7s = spec_text("openai"@);
        let s8s = spec_enc_opt_provider(provider_view(openai));
        lemma_is_at_join(b@, pos as int, s1s, s2s);
        lemma_is_at_join(b@, pos as int, s1s + s2s, s3s);
        lemma_is_at_join(b@, pos as int, s1s + s2s + s3s, s4s);
        lemma_is_at_join(b@, pos as int, s1s + s2s + s3s + s4s, s5s);
        lemma_is_at_join(b@, pos as int, s1s + s2s + s3s + s4s + s5s, s6s);
        lemma_is_at_join(b@, pos as int, s1s + s2s + s3s + s4s + s5s + s6s, s7s);
        lemma_is_at_join(b@, pos as int, s1s + s2s + s3s + s4s + s5s + s6s + s7s, s8s);
        assert(is_at(
            b@,
            pos as int,
            spec_enc_providers4(
                provider_view(gemini),
                provider_view(deepseek),
                provider_view(xai),
                provider_view(openai),
            ),
        ));
        assert forall|g: Option<ModelProviderV>, d: Option<ModelProviderV>, x: Option<ModelProviderV>, o: Option<ModelProviderV>|
            is_at(b@, pos as int, #[trigger] spec_enc_providers4(g, d, x, o)) implies (
        provider_view(gemini) == g && provider_view(deepseek) == d && provider_view(xai) == x
            && provider_view(openai) == o && p8 == pos + spec_enc_providers4(g, d, x, o).len()) by {
            lemma_providers4_parts(b@, pos as int, g, d, x, o);
        }
    }
    Some(((gemini, deepseek, xai, openai), p8))
}

/// The encoding of `AssistantConfig`: a six-pair map.
pub open spec fn spec_enc_assistant(v: AssistantConfigV) -> Seq<u8> {
    spec_map_head(6) + spec_text("root_secret"@) + spec_bytes(v.root_secret) + spec_text(
        "preferred_provider"@,
    ) + spec_text(v.preferred_provider) + spec_enc_providers4(v.gemini, v.deepseek, v.xai, v.openai)
}

/// Positions of the parts of an encoded `AssistantConfig` within a buffer.
proof fn lemma_assistant_parts(b: Seq<u8>, pos: int, w: AssistantConfigV)
    requires
        is_at(b, pos, spec_enc_assistant(w)),
    ensures
        is_at(b, pos, spec_map_head(6)),
        is_at(b, pos + 1, spec_text("root_secret"@)),
        is_at(b, pos + 1 + spec_text("root_secret"@).len(), spec_bytes(w.root_secret)),
        is_at(
            b,
            pos + 1 + spec_text("root_secret"@).len() + spec_bytes(w.root_secret).len(),
            spec_text("preferred_provider"@),
        ),
        is_at(
            b,
            pos + 1 + spec_text("root_secret"@).len() + spec_bytes(w.root_secret).len()
                + spec_text("preferred_provider"@).len(),
            spec_text(w.preferred_provider),
        ),
        is_at(
            b,
            pos + 1 + spec_text("root_secret"@).len() + spec_bytes(w.root_secret).len()
                + spec_text("preferred_provider"@).len() + spec_text(w.preferred_provider).len(),
            spec_enc_providers4(w.gemini, w.deepseek, w.xai, w.openai),
        ),
{
    let s1 = spec_map_head(6);
    let s2 = spec_text("root_secret"@);
    let s3 = spec_bytes(w.root_secret);
    let s4 = spec_text("preferred_provider"@);
    let s5 = spec_text(w.preferred_provider);
    let s6 = spec_enc_providers4(w.gemini, w.deepseek, w.xai, w.openai);
    lemma_is_at_concat(b, pos, s1 + s2 + s3 + s4 + s5, s6);
    lemma_is_at_concat(b, pos, s1 + s2 + s3 + s4, s5);
    lemma_is_at_concat(b, pos, s1 + s2 + s3, s4);
    lemma_is_at_concat(b, pos, s1 + s2, s3);
    lemma_is_at_concat(b, pos, s1, s2);
    assert(s1.len() == 1);
}

/// Appends the encoding of `AssistantConfig`.
pub fn enc_assistant(out: &mut Vec<u8>, v: &AssistantConfig)
    ensures
        final(out)@ =~= old(out)@ + spec_enc_assistant(v@),
{
    enc_map_head(out, 6);
    enc_text(out, "root_secret");
    enc_bytes(out, v.root_secret.0.as_slice());
    enc_text(out, "preferred_provider");
    enc_text(out, v.preferred_provider.as_str());
    enc_providers4(out, &v.gemini, &v.deepseek, &v.xai, &v.openai);
}

/// Reads an `AssistantConfig` at `pos`.
#[verifier::spinoff_prover]
#[verifier::rlimit(100)]
pub fn dec_assistant(b: &Vec<u8>, pos: usize) -> (r: Option<(AssistantConfig, usize)>)
    ensures
        r matches Some((v, end)) ==> {
            &&& pos < end <= b@.len()
            &&& end - pos == spec_enc_assistant(v@).len()
            &&& is_at(b@, pos as int, spec_enc_assistant(v@))
        },
        forall|w: AssistantConfigV|
            w.wf() && is_at(b@, pos as int, #[trigger] spec_enc_assistant(w)) ==> (r matches Some(
                (v, end),
            ) && v@ == w && end == pos + spec_enc_assistant(w).len()),
{
    proof {
        reveal_strlit("root_secret");
        reveal_strlit("preferred_provider");
    }
    let r1 = dec_map_head(b, pos);
    let p1 = match r1 {
        Some((n1, p1)) if n1 == 6 => p1,
        _ => {
            proof {
                assert forall|w: AssistantConfigV|
                    w.wf() && is_at(b@, pos as int, #[trigger] spec_enc_assistant(w)) implies false by {
                    lemma_assistant_parts(b@, pos as int, w);
                }
            }
            return None;
        },
    };
    let k1 = dec_text(b, p1);
    let (ks1, p2) = match k1 {
        Some((ks1, q)) => (ks1, q),
        None => {
            proof {
                assert forall|w: AssistantConfigV|
                    w.wf() && is_at(b@, pos as int, #[trigger] spec_enc_assistant(w)) implies false by {
                    lemma_assistant_parts(b@, pos as int, w);
                }
            }
            return None;
        },
    };
    if !str_eq(ks1.as_str(), "root_secret") {
        proof {
            assert forall|w: AssistantConfigV|
                w.wf() && is_at(b@, pos as int, #[trigger] spec_enc_assistant(w)) implies false by {
                lemma_assistant_parts(b@, pos as int, w);
            }
        }
        return None;
    }
    let v1 = dec_bytes_arr::<48>(b, p2);
    let (root_secret, p3) = match v1 {
        Some((root_secret, q)) => (root_secret, q),
        None => {
            proof {
                assert forall|w: AssistantConfigV|
                    w.wf() && is_at(b@, pos as int, #[trigger] spec_enc_assistant(w)) implies false by {
                    lemma_assistant_parts(b@, pos as int, w);
                    assert(w.root_secret.len() == 48);
                }
            }
            return None;
        },
    };
    let k2 = dec_text(b, p3);
    let (ks2, p4) = match k2 {
        Some((ks2, q)) => (ks2, q),
        None => {
            proof {
                assert forall|w: AssistantConfigV|
                    w.wf() && is_at(b@, pos as int, #[trigger] spec_enc_assistant(w)) implies false by {
                    lemma_assistant_parts(b@, pos as int, w);
                }
            }
            return None;
        },
    };
    if !str_eq(ks2.as_str(), "preferred_provider") {
        proof {
            assert forall|w: AssistantConfigV|
                w.wf() && is_at(b@, pos as int, #[trigger] spec_enc_assistant(w)) implies false by {
                lemma_assistant_parts(b@, pos as int, w);
            }
        }
        return None;
    }
    let v2 = dec_text(b, p4);
    let (preferred_provider, p5) = match v2 {
        Some((preferred_provider, q)) => (preferred_provider, q),
        None => {
            proof {
                assert forall|w: AssistantConfigV|
                    w.wf() && is_at(b@, pos as int, #[trigger] spec_enc_assistant(w)) implies false by {
                    lemma_assistant_parts(b@, pos as int, w);
                }
            }
            return None;
        },
    };
    let v3 = dec_providers4(b, p5);
    let ((gemini, deepseek, xai, openai), p6) = match v3 {
        Some((t, q)) => (t, q),
        None => {
            proof {
                assert forall|w: AssistantConfigV|
                    w.wf() && is_at(b@, pos as int, #[trigger] spec_enc_assistant(w)) implies false by {
                    lemma_assistant_parts(b@, pos as int, w);
                }
            }
            return None;
        },
    };
    let v = AssistantConfig {
        root_secret: SensitiveData(root_secret),
        preferred_provider,
        gemini,
        deepseek,
        xai,
        openai,
    };
    proof {
        let s1s = spec_map_head(6);
        let s2s = spec_text("root_secret"@);
        let s3s = spec_bytes(v@.root_secret);
        let s4s = spec_text("preferred_provider"@);
        let s5s = spec_text(v@.preferred_provider);
        let s6s = spec_enc_providers4(v@.gemini, v@.deepseek, v@.xai, v@.openai);
        assert(is_at(b@, pos as int, s1s)) by {
            assert(b@.subrange(pos as int, p1 as int) =~= spec_map_head(6));
        }
        lemma_is_at_join(b@, pos as int, s1s, s2s);
        lemma_is_at_join(b@, pos as int, s1s + s2s, s3s);
        lemma_is_at_join(b@, pos as int, s1s + s2s + s3s, s4s);
        lemma_is_at_join(b@, pos as int, s1s + s2s + s3s + s4s, s5s);
        lemma_is_at_join(b@, pos as int, s1s + s2s + s3s + s4s + s5s, s6s);
        assert(is_at(b@, pos as int, spec_enc_assistant(v@)));
        assert forall|w: AssistantConfigV|
            w.wf() && is_at(b@, pos as int, #[trigger] spec_enc_assistant(w)) implies (v@ == w
            && p6 == pos + spec_enc_assistant(w).len()) by {
            lemma_assistant_parts(b@, pos as int, w);
            assert(w.root_secret.len() == 48);
            assert(v@ =~= w);
        }
    }
    Some((v, p6))
}

/// The encoding of an optional `AssistantConfig`: null, or the value.
pub open spec fn spec_enc_opt_assistant(o: Option<AssistantConfigV>) -> Seq<u8> {
    match o {
        None => spec_null(),
        Some(a) => spec_enc_assistant(a),
    }
}

/// Appends the encoding of an optional `AssistantConfig`.
pub fn enc_opt_assistant(out: &mut Vec<u8>, o: &Option<AssistantConfig>)
    ensures
        final(out)@ =~= old(out)@ + spec_enc_opt_assistant(opt_assistant_view(*o)),
{
    match o {
        None => enc_null(out),
        Some(a) => enc_assistant(out, a),
    }
}

/// Reads an optional `AssistantConfig` at `pos`.
pub fn dec_opt_assistant(b: &Vec<u8>, pos: usize) -> (r: Option<(Option<AssistantConfig>, usize)>)
    ensures
        r matches Some((o, end)) ==> {
            &&& pos < end <= b@.len()
            &&& end - pos == spec_enc_opt_assistant(opt_assistant_view(o)).len()
            &&& is_at(b@, pos as int, spec_enc_opt_assistant(opt_assistant_view(o)))
        },
        forall|o: Option<AssistantConfigV>|
            (match o {
                Some(a) => a.wf(),
                None => true,
            }) && is_at(b@, pos as int, #[trigger] spec_enc_opt_assistant(o)) ==> (r matches Some(
                (v, end),
            ) && opt_assistant_view(v) == o && end == pos + spec_enc_opt_assistant(o).len()),
{
    if pos < b.len() && b[pos] == 0xf6 {
        proof {
            assert(b@.subrange(pos as int, pos + 1) =~= spec_null());
            assert forall|o: Option<AssistantConfigV>|
                (match o {
                Some(a) => a.wf(),
                None => true,
            }) && is_at(b@, pos as int, #[trigger] spec_enc_opt_assistant(o)) implies o
                == None::<AssistantConfigV> by {
                match o {
                    Some(a) => {
                        lemma_assistant_parts(b@, pos as int, a);
                        lemma_first_byte(b@, pos as int, spec_map_head(6));
                        lemma_head_first_byte(5, 6);
                    },
                    None => {},
                }
            }
        }
        Some((None, pos + 1))
    } else {
        match dec_assistant(b, pos) {
            Some((a, end)) => {
                proof {
                    if is_at(b@, pos as int, spec_enc_opt_assistant(None)) {
                        lemma_first_byte(b@, pos as int, spec_null());
                    }
                }
                Some((Some(a), end))
            },
            None => {
                proof {
                    assert forall|o: Option<AssistantConfigV>|
                        (match o {
                Some(a) => a.wf(),
                None => true,
            }) && is_at(b@, pos as int, #[trigger] spec_enc_opt_assistant(o)) implies
                    false by {
                        match o {
                            Some(a) => {
                                assert(is_at(b@, pos as int, spec_enc_assistant(a)));
                            },
                            None => {
                                lemma_first_byte(b@, pos as int, spec_null());
                            },
                        }
                    }
                }
                None
            },
        }
    }
}


/// The encoding of `SecretState`: a 3-pair map.
#[verifier::opaque]
pub open spec fn spec_enc_secret_state(v: SecretStateV) -> Seq<u8> {
    spec_map_head(3) + spec_text("session_secret"@) + spec_bytes(v.session_secret) + spec_text("auth"@) + spec_enc_opt_auth(v.auth) + spec_text("assistant"@) + spec_enc_opt_assistant(v.assistant)
}

/// Positions of the parts of an encoded `SecretState` within a buffer.
proof fn lemma_secret_state_parts(b: Seq<u8>, pos: int, w: SecretStateV)
    requires
        is_at(b, pos, spec_enc_secret_state(w)),
    ensures
        is_at(b, pos, spec_map_head(3)),
        is_at(b, pos + 1, spec_text("session_secret"@)),
        is_at(b, pos + 1 + spec_text("session_secret"@).len(), spec_bytes(w.session_secret)),
        is_at(b, pos + 1 + spec_text("session_secret"@).len() + spec_bytes(w.session_secret).len(), spec_text("auth"@)),
        is_at(b, pos + 1 + spec_text("session_secret"@).len() + spec_bytes(w.session_secret).len() + spec_text("auth"@).len(), spec_enc_opt_auth(w.auth)),
        is_at(b, pos + 1 + spec_text("session_secret"@).len() + spec_bytes(w.session_secret).len() + spec_text("auth"@).len() + spec_enc_opt_auth(w.auth).len(), spec_text("assistant"@)),
        is_at(b, pos + 1 + spec_text("session_secret"@).len() + spec_bytes(w.session_secret).len() + spec_text("auth"@).len() + spec_enc_opt_auth(w.auth).len() + spec_text("assistant"@).len(), spec_enc_opt_assistant(w.assistant)),
{
    reveal(spec_enc_secret_state);
    let s1 = spec_map_head(3);
    let s2 = spec_text("session_secret"@);
    let s3 = spec_bytes(w.session_secret);
    let s4 = spec_text("auth"@);
    let s5 = spec_enc_opt_auth(w.auth);
    let s6 = spec_text("assistant"@);
    let s7 = spec_enc_opt_assistant(w.assistant);
    lemma_is_at_concat(b, pos, s1 + s2 + s3 + s4 + s5 + s6, s7);
    lemma_is_at_concat(b, pos, s1 + s2 + s3 + s4 + s5, s6);
    lemma_is_at_concat(b, pos, s1 + s2 + s3 + s4, s5);
    lemma_is_at_concat(b, pos, s1 + s2 + s3, s4);
    lemma_is_at_concat(b, pos, s1 + s2, s3);
    lemma_is_at_concat(b, pos, s1, s2);
    assert(s1.len() == 1);
}

/// Appends the encoding of `SecretState`.
pub fn enc_secret_state(out: &mut Vec<u8>, v: &SecretState)
    ensures
        final(out)@ =~= old(out)@ + spec_enc_secret_state(v@),
{
    proof {
        reveal(spec_enc_secret_state);
    }
    enc_map_head(out, 3);
    enc_text(out, "session_secret");
    enc_bytes(out, v.session_secret.0.as_slice());
    enc_text(out, "auth");
    enc_opt_auth(out, &v.auth);
    enc_text(out, "assistant");
    enc_opt_assistant(out, &v.assistant);
}

/// Reads a `SecretState` at `pos`.
#[verifier::spinoff_prover]
#[verifier::rlimit(100)]
pub fn dec_secret_state(b: &Vec<u8>, pos: usize) -> (r: Option<(SecretState, usize)>)
    ensures
        r matches Some((v, end)) ==> {
            &&& pos < end <= b@.len()
            &&& end - pos == spec_enc_secret_state(v@).len()
            &&& is_at(b@, pos as int, spec_enc_secret_state(v@))
        },
        forall|w: SecretStateV|
            w.wf() && is_at(b@, pos as int, #[trigger] spec_enc_secret_state(w)) ==> (r matches Some(
                (v, end),
            ) && v@ == w && end == pos + spec_enc_secret_state(w).len()),
{
    proof {
        reveal(spec_enc_secret_state);
        reveal_strlit("session_secret");
        reveal_strlit("auth");
        reveal_strlit("assistant");
    }
    let r1 = dec_map_head(b, pos);
    let p1 = match r1 {
        Some((n1, p1)) if n1 == 3 => p1,
        _ => {
            proof {
                assert forall|w: SecretStateV|
                    w.wf() && is_at(b@, pos as int, #[trigger] spec_enc_secret_state(w)) implies false by {
                    lemma_secret_state_parts(b@, pos as int, w);
                        assert(w.session_secret.len() == 32);
                }
            }
            return None;
        },
    };
    let k1 = dec_text(b, p1);
    let (ks1, p2) = match k1 {
        Some((ks1, q)) => (ks1, q),
        None => {
            proof {
                assert forall|w: SecretStateV|
                    w.wf() && is_at(b@, pos as int, #[trigger] spec_enc_secret_state(w)) implies false by {
                    lemma_secret_state_parts(b@, pos as int, w);
                        assert(w.session_secret.len() == 32);
                }
            }
            return None;
        },
    };
    if !str_eq(ks1.as_str(), "session_secret") {
        proof {
            assert forall|w: SecretStateV|
                w.wf() && is_at(b@, pos as int, #[trigger] spec_enc_secret_state(w)) implies false by {
                lemma_secret_state_parts(b@, pos as int, w);
                        assert(w.session_secret.len() == 32);
            }
        }
        return None;
    }
    let r_session_secret = dec_bytes_arr::<32>(b, p2);
    let (session_secret, p3) = match r_session_secret {
        Some((session_secret, q)) => (session_secret, q),
        None => {
            proof {
                assert forall|w: SecretStateV|
                    w.wf() && is_at(b@, pos as int, #[trigger] spec_enc_secret_state(w)) implies false by {
                    lemma_secret_state_parts(b@, pos as int, w);
                        assert(w.session_secret.len() == 32);
                }
            }
            return None;
        },
    };
    let k2 = dec_text(b, p3);
    let (ks2, p4) = match k2 {
        Some((ks2, q)) => (ks2, q),
        None => {
            proof {
                assert forall|w: SecretStateV|
                    w.wf() && is_at(b@, pos as int, #[trigger] spec_enc_secret_state(w)) implies false by {
                    lemma_secret_state_parts(b@, pos as int, w);
                        assert(w.session_secret.len() == 32);
                }
            }
            return None;
        },
    };
    if !str_eq(ks2.as_str(), "auth") {
        proof {
            assert forall|w: SecretStateV|
                w.wf() && is_at(b@, pos as int, #[trigger] spec_enc_secret_state(w)) implies false by {
                lemma_secret_state_parts(b@, pos as int, w);
                        assert(w.session_secret.len() == 32);
            }
        }
        return None;
    }
    let r_auth = dec_opt_auth(b, p4);
    let (auth, p5) = match r_auth {
        Some((auth, q)) => (auth, q),
        None => {
            proof {
                assert forall|w: SecretStateV|
                    w.wf() && is_at(b@, pos as int, #[trigger] spec_enc_secret_state(w)) implies false by {
                    lemma_secret_state_parts(b@, pos as int, w);
                        assert(w.session_secret.len() == 32);
                }
            }
            return None;
        },
    };
    let k3 = dec_text(b, p5);
    let (ks3, p6) = match k3 {
        Some((ks3, q)) => (ks3, q),
        None => {
            proof {
                assert forall|w: SecretStateV|
                    w.wf() && is_at(b@, pos as int, #[trigger] spec_enc_secret_state(w)) implies false by {
                    lemma_secret_state_parts(b@, pos as int, w);
                        assert(w.session_secret.len() == 32);
                }
            }
            return None;
        },
    };
    if !str_eq(ks3.as_str(), "assistant") {
        proof {
            assert forall|w: SecretStateV|
                w.wf() && is_at(b@, pos as int, #[trigger] spec_enc_secret_state(w)) implies false by {
                lemma_secret_state_parts(b@, pos as int, w);
                        assert(w.session_secret.len() == 32);
            }
        }
        return None;
    }
    let r_assistant = dec_opt_assistant(b, p6);
    let (assistant, p7) = match r_assistant {
        Some((assistant, q)) => (assistant, q),
        None => {
            proof {
                assert forall|w: SecretStateV|
                    w.wf() && is_at(b@, pos as int, #[trigger] spec_enc_secret_state(w)) implies false by {
                    lemma_secret_state_parts(b@, pos as int, w);
                        assert(w.session_secret.len() == 32);
                }
            }
            return None;
        },
    };
    let v = SecretState { session_secret: SensitiveData(session_secret), auth, assistant };
    proof {
        let s1s = spec_map_head(3);
        let s2s = spec_text("session_secret"@);
        let s3s = spec_bytes(v@.session_secret);
        let s4s = spec_text("auth"@);
        let s5s = spec_enc_opt_auth(v@.auth);
        let s6s = spec_text("assistant"@);
        let s7s = spec_enc_opt_assistant(v@.assistant);
        assert(is_at(b@, pos as int, s1s)) by {
            assert(b@.subrange(pos as int, p1 as int) =~= spec_map_head(3));
        }
        lemma_is_at_join(b@, pos as int, s1s, s2s);
        lemma_is_at_join(b@, pos as int, s1s + s2s, s3s);
        lemma_is_at_join(b@, pos as int, s1s + s2s + s3s, s4s);
        lemma_is_at_join(b@, pos as int, s1s + s2s + s3s + s4s, s5s);
        lemma_is_at_join(b@, pos as int, s1s + s2s + s3s + s4s + s5s, s6s);
        lemma_is_at_join(b@, pos as int, s1s + s2s + s3s + s4s + s5s + s6s, s7s);
        assert(is_at(b@, pos as int, spec_enc_secret_state(v@)));
        assert forall|w: SecretStateV|
            w.wf() && is_at(b@, pos as int, #[trigger] spec_enc_secret_state(w)) implies (v@ == w
            && p7 == pos + spec_enc_secret_state(w).len()) by {
            lemma_secret_state_parts(b@, pos as int, w);
                        assert(w.session_secret.len() == 32);
            assert(v@ =~= w);
        }
    }
    Some((v, p7))
}

} // verus!

//! A strict, canonical subset of CBOR (RFC 8949), used as the binary form of
//! every value this library persists or places in a deep-link payload.
//!
//! Encoders append to a byte vector; decoders walk a byte vector with a
//! cursor. Decoding is strict: only the minimal-length head of each item is
//! accepted, so every value has exactly one encoding and a successful decode
//! pins the input bytes down completely.

use vstd::prelude::*;

verus! {

/// True when `part` occurs in `b` exactly at offset `pos`.
pub open spec fn is_at(b: Seq<u8>, pos: int, part: Seq<u8>) -> bool {
    &&& 0 <= pos
    &&& pos + part.len() <= b.len()
    &&& b.subrange(pos, pos + part.len()) == part
}

/// The head of a CBOR item: major type in the upper three bits, then the
/// shortest argument encoding the value admits.
pub open spec fn spec_head(major: u8, arg: u64) -> Seq<u8>
    recommends
        major < 8,
{
    if arg < 24 {
        seq![(major * 32 + arg) as u8]
    } else if arg < 0x100 {
        seq![(major * 32 + 24) as u8, arg as u8]
    } else if arg < 0x10000 {
        seq![(major * 32 + 25) as u8, (arg / 0x100) as u8, (arg % 0x100) as u8]
    } else if arg < 0x1_0000_0000 {
        seq![
            (major * 32 + 26) as u8,
            (arg / 0x100_0000) as u8,
            ((arg / 0x1_0000) % 0x100) as u8,
            ((arg / 0x100) % 0x100) as u8,
            (arg % 0x100) as u8,
        ]
    } else {
        seq![
            (major * 32 + 27) as u8,
            (arg / 0x100_0000_0000_0000) as u8,
            ((arg / 0x1_0000_0000_0000) % 0x100) as u8,
            ((arg / 0x100_0000_0000) % 0x100) as u8,
            ((arg / 0x1_0000_0000) % 0x100) as u8,
            ((arg / 0x100_0000) % 0x100) as u8,
            ((arg / 0x1_0000) % 0x100) as u8,
            ((arg / 0x100) % 0x100) as u8,
            (arg % 0x100) as u8,
        ]
    }
}

/// A two-byte big-endian sum determines its digits.
proof fn lemma_be2(a: u64, b1: u8, b2: u8)
    requires
        a == b1 as u64 * 0x100 + b2 as u64,
    ensures
        a < 0x10000,
        a / 0x100 == b1 as u64,
        a % 0x100 == b2 as u64,
{
    assert(a < 0x10000 && a / 0x100 == b1 as u64 && a % 0x100 == b2 as u64) by (bit_vector)
        requires
            a == b1 as u64 * 0x100 + b2 as u64,
    ;
}

/// A four-byte big-endian sum determines its digits.
proof fn lemma_be4(a: u64, b1: u8, b2: u8, b3: u8, b4: u8)
    requires
        a == b1 as u64 * 0x100_0000 + b2 as u64 * 0x1_0000 + b3 as u64 * 0x100 + b4 as u64,
    ensures
        a < 0x1_0000_0000,
        a / 0x100_0000 == b1 as u64,
        (a / 0x1_0000) % 0x100 == b2 as u64,
        (a / 0x100) % 0x100 == b3 as u64,
        a % 0x100 == b4 as u64,
{
    assert(a < 0x1_0000_0000 && a / 0x100_0000 == b1 as u64 && (a / 0x1_0000) % 0x100 == b2 as u64
        && (a / 0x100) % 0x100 == b3 as u64 && a % 0x100 == b4 as u64) by (bit_vector)
        requires
            a == b1 as u64 * 0x100_0000 + b2 as u64 * 0x1_0000 + b3 as u64 * 0x100 + b4 as u64,
    ;
}

/// An eight-byte big-endian sum determines its digits.
proof fn lemma_be8(a: u64, b1: u8, b2: u8, b3: u8, b4: u8, b5: u8, b6: u8, b7: u8, b8: u8)
    requires
        a == b1 as u64 * 0x100_0000_0000_0000 + b2 as u64 * 0x1_0000_0000_0000 + b3 as u64
            * 0x100_0000_0000 + b4 as u64 * 0x1_0000_0000 + b5 as u64 * 0x100_0000 + b6 as u64
            * 0x1_0000 + b7 as u64 * 0x100 + b8 as u64,
    ensures
        a / 0x100_0000_0000_0000 == b1 as u64,
        (a / 0x1_0000_0000_0000) % 0x100 == b2 as u64,
        (a / 0x100_0000_0000) % 0x100 == b3 as u64,
        (a / 0x1_0000_0000) % 0x100 == b4 as u64,
        (a / 0x100_0000) % 0x100 == b5 as u64,
        (a / 0x1_0000) % 0x100 == b6 as u64,
        (a / 0x100) % 0x100 == b7 as u64,
        a % 0x100 == b8 as u64,
{
    assert(a / 0x100_0000_0000_0000 == b1 as u64 && (a / 0x1_0000_0000_0000) % 0x100 == b2 as u64
        && (a / 0x100_0000_0000) % 0x100 == b3 as u64 && (a / 0x1_0000_0000) % 0x100 == b4 as u64
        && (a / 0x100_0000) % 0x100 == b5 as u64 && (a / 0x1_0000) % 0x100 == b6 as u64 && (a
        / 0x100) % 0x100 == b7 as u64 && a % 0x100 == b8 as u64) by (bit_vector)
        requires
            a == b1 as u64 * 0x100_0000_0000_0000 + b2 as u64 * 0x1_0000_0000_0000 + b3 as u64
                * 0x100_0000_0000 + b4 as u64 * 0x1_0000_0000 + b5 as u64 * 0x100_0000 + b6 as u64
                * 0x1_0000 + b7 as u64 * 0x100 + b8 as u64,
    ;
}

/// Every 32-bit value is the big-endian sum of its four digits.
proof fn lemma_decomp4(a: u64)
    requires
        a < 0x1_0000_0000,
    ensures
        a == (a / 0x100_0000) * 0x100_0000 + ((a / 0x1_0000) % 0x100) * 0x1_0000 + ((a / 0x100)
            % 0x100) * 0x100 + (a % 0x100),
        a / 0x100_0000 < 0x100,
{
    assert(a == (a / 0x100_0000) * 0x100_0000 + ((a / 0x1_0000) % 0x100) * 0x1_0000 + ((a / 0x100)
        % 0x100) * 0x100 + (a % 0x100) && a / 0x100_0000 < 0x100) by (bit_vector)
        requires
            a < 0x1_0000_0000,
    ;
}

/// Every 64-bit value is the big-endian sum of its eight digits.
proof fn lemma_decomp8(a: u64)
    ensures
        a == (a / 0x100_0000_0000_0000) * 0x100_0000_0000_0000 + ((a / 0x1_0000_0000_0000) % 0x100)
            * 0x1_0000_0000_0000 + ((a / 0x100_0000_0000) % 0x100) * 0x100_0000_0000 + ((a
            / 0x1_0000_0000) % 0x100) * 0x1_0000_0000 + ((a / 0x100_0000) % 0x100) * 0x100_0000 + ((
        a / 0x1_0000) % 0x100) * 0x1_0000 + ((a / 0x100) % 0x100) * 0x100 + (a % 0x100),
        a / 0x100_0000_0000_0000 < 0x100,
{
    assert(a == (a / 0x100_0000_0000_0000) * 0x100_0000_0000_0000 + ((a / 0x1_0000_0000_0000)
        % 0x100) * 0x1_0000_0000_0000 + ((a / 0x100_0000_0000) % 0x100) * 0x100_0000_0000 + ((a
        / 0x1_0000_0000) % 0x100) * 0x1_0000_0000 + ((a / 0x100_0000) % 0x100) * 0x100_0000 + ((a
        / 0x1_0000) % 0x100) * 0x1_0000 + ((a / 0x100) % 0x100) * 0x100 + (a % 0x100) && a
        / 0x100_0000_0000_0000 < 0x100) by (bit_vector);
}

/// Makes the bytes of an occurrence available positionally.
proof fn lemma_at_bytes(b: Seq<u8>, pos: int, part: Seq<u8>)
    requires
        is_at(b, pos, part),
    ensures
        forall|i: int| 0 <= i < part.len() ==> part[i] == b[pos + i],
{
    assert forall|i: int| 0 <= i < part.len() implies part[i] == b[pos + i] by {
        assert(part[i] == b.subrange(pos, pos + part.len())[i]);
    }
}

/// Appends the canonical head for `(major, arg)` to `out`.
pub fn write_head(out: &mut Vec<u8>, major: u8, arg: u64)
    requires
        major < 8,
    ensures
        final(out)@ =~= old(out)@ + spec_head(major, arg),
{
    let m: u8 = major * 32;
    if arg < 24 {
        out.push(m + arg as u8);
    } else if arg < 0x100 {
        out.push(m + 24);
        out.push(arg as u8);
    } else if arg < 0x10000 {
        out.push(m + 25);
        out.push((arg / 0x100) as u8);
        out.push((arg % 0x100) as u8);
    } else if arg < 0x1_0000_0000 {
        out.push(m + 26);
        out.push((arg / 0x100_0000) as u8);
        out.push(((arg / 0x1_0000) % 0x100) as u8);
        out.push(((arg / 0x100) % 0x100) as u8);
        out.push((arg % 0x100) as u8);
    } else {
        out.push(m + 27);
        out.push((arg / 0x100_0000_0000_0000) as u8);
        out.push(((arg / 0x1_0000_0000_0000) % 0x100) as u8);
        out.push(((arg / 0x100_0000_0000) % 0x100) as u8);
        out.push(((arg / 0x1_0000_0000) % 0x100) as u8);
        out.push(((arg / 0x100_0000) % 0x100) as u8);
        out.push(((arg / 0x1_0000) % 0x100) as u8);
        out.push(((arg / 0x100) % 0x100) as u8);
        out.push((arg % 0x100) as u8);
    }
    proof {
        if arg >= 0x1_0000_0000 {
            lemma_decomp8(arg);
            assert(arg / 0x100_0000_0000_0000 < 0x100);
        }
    }
}

/// Reads one canonical head at `pos`. Returns the major type, the argument
/// and the offset just past the head; rejects non-minimal encodings, so a
/// successful read identifies the consumed bytes exactly.
#[verifier::rlimit(90)]
pub fn read_head(b: &Vec<u8>, pos: usize) -> (r: Option<(u8, u64, usize)>)
    ensures
        r matches Some((major, arg, end)) ==> {
            &&& major < 8
            &&& pos < end <= b@.len()
            &&& end - pos == spec_head(major, arg).len()
            &&& is_at(b@, pos as int, spec_head(major, arg))
        },
        forall|major: u8, arg: u64|
            major < 8 && is_at(b@, pos as int, #[trigger] spec_head(major, arg)) ==> r == Some(
                (major, arg, (pos + spec_head(major, arg).len()) as usize),
            ),
{
    if pos >= b.len() {
        proof {
            assert forall|m2: u8, a2: u64|
                m2 < 8 && is_at(b@, pos as int, #[trigger] spec_head(m2, a2)) implies false by {
                assert(spec_head(m2, a2).len() >= 1);
            }
        }
        return None;
    }
    let ib: u8 = b[pos];
    let major: u8 = ib / 32;
    let info: u8 = ib % 32;
    proof {
        assert(ib == major * 32 + info);
    }
    if info < 24 {
        proof {
            assert(b@.subrange(pos as int, pos + 1) =~= seq![ib]);
            assert forall|m2: u8, a2: u64|
                m2 < 8 && is_at(b@, pos as int, #[trigger] spec_head(m2, a2)) implies Some(
                (major, info as u64, (pos + 1) as usize),
            ) == Some::<(u8, u64, usize)>((m2, a2, (pos + spec_head(m2, a2).len()) as usize)) by {
                lemma_at_bytes(b@, pos as int, spec_head(m2, a2));
                assert(spec_head(m2, a2)[0] == ib);
            }
        }
        Some((major, info as u64, pos + 1))
    } else if info == 24 {
        if b.len() - pos < 2 {
            proof {
                assert forall|m2: u8, a2: u64|
                    m2 < 8 && is_at(b@, pos as int, #[trigger] spec_head(m2, a2)) implies false by {
                    lemma_at_bytes(b@, pos as int, spec_head(m2, a2));
                    assert(spec_head(m2, a2)[0] == ib);
                }
            }
            return None;
        }
        let v: u8 = b[pos + 1];
        if v < 24 {
            proof {
                assert forall|m2: u8, a2: u64|
                    m2 < 8 && is_at(b@, pos as int, #[trigger] spec_head(m2, a2)) implies false by {
                    lemma_at_bytes(b@, pos as int, spec_head(m2, a2));
                    assert(spec_head(m2, a2)[0] == ib);
                }
            }
            return None;
        }
        proof {
            assert(b@.subrange(pos as int, pos + 2) =~= seq![ib, v]);
            assert forall|m2: u8, a2: u64|
                m2 < 8 && is_at(b@, pos as int, #[trigger] spec_head(m2, a2)) implies Some(
                (major, v as u64, (pos + 2) as usize),
            ) == Some::<(u8, u64, usize)>((m2, a2, (pos + spec_head(m2, a2).len()) as usize)) by {
                lemma_at_bytes(b@, pos as int, spec_head(m2, a2));
                assert(spec_head(m2, a2)[0] == ib);
                if 24 <= a2 < 0x100 {
                    assert(spec_head(m2, a2)[1] == v);
                }
            }
        }
        Some((major, v as u64, pos + 2))
    } else if info == 25 {
        if b.len() - pos < 3 {
            proof {
                assert forall|m2: u8, a2: u64|
                    m2 < 8 && is_at(b@, pos as int, #[trigger] spec_head(m2, a2)) implies false by {
                    lemma_at_bytes(b@, pos as int, spec_head(m2, a2));
                    assert(spec_head(m2, a2)[0] == ib);
                }
            }
            return None;
        }
        let b1: u8 = b[pos + 1];
        let b2: u8 = b[pos + 2];
        let v: u64 = (b1 as u64) * 0x100 + (b2 as u64);
        proof {
            lemma_be2(v, b1, b2);
        }
        if v < 0x100 {
            proof {
                assert forall|m2: u8, a2: u64|
                    m2 < 8 && is_at(b@, pos as int, #[trigger] spec_head(m2, a2)) implies false by {
                    lemma_at_bytes(b@, pos as int, spec_head(m2, a2));
                    assert(spec_head(m2, a2)[0] == ib);
                    if 0x100 <= a2 < 0x10000 {
                        assert(spec_head(m2, a2)[1] == b1);
                        assert(spec_head(m2, a2)[2] == b2);
                        assert(a2 == (a2 / 0x100) * 0x100 + a2 % 0x100);
                    }
                }
            }
            return None;
        }
        proof {
            assert(b@.subrange(pos as int, pos + 3) =~= seq![ib, b1, b2]);
            assert(spec_head(major, v) =~= seq![ib, b1, b2]);
            assert forall|m2: u8, a2: u64|
                m2 < 8 && is_at(b@, pos as int, #[trigger] spec_head(m2, a2)) implies Some(
                (major, v, (pos + 3) as usize),
            ) == Some::<(u8, u64, usize)>((m2, a2, (pos + spec_head(m2, a2).len()) as usize)) by {
                lemma_at_bytes(b@, pos as int, spec_head(m2, a2));
                assert(spec_head(m2, a2)[0] == ib);
                if 0x100 <= a2 < 0x10000 {
                    assert(spec_head(m2, a2)[1] == b1);
                    assert(spec_head(m2, a2)[2] == b2);
                    assert(a2 == (a2 / 0x100) * 0x100 + a2 % 0x100);
                }
            }
        }
        Some((major, v, pos + 3))
    } else if info == 26 {
        if b.len() - pos < 5 {
            proof {
                assert forall|m2: u8, a2: u64|
                    m2 < 8 && is_at(b@, pos as int, #[trigger] spec_head(m2, a2)) implies false by {
                    lemma_at_bytes(b@, pos as int, spec_head(m2, a2));
                    assert(spec_head(m2, a2)[0] == ib);
                }
            }
            return None;
        }
        let b1: u8 = b[pos + 1];
        let b2: u8 = b[pos + 2];
        let b3: u8 = b[pos + 3];
        let b4: u8 = b[pos + 4];
        let v: u64 = (b1 as u64) * 0x100_0000 + (b2 as u64) * 0x1_0000 + (b3 as u64) * 0x100 + (
        b4 as u64);
        proof {
            lemma_be4(v, b1, b2, b3, b4);
        }
        if v < 0x10000 {
            proof {
                assert forall|m2: u8, a2: u64|
                    m2 < 8 && is_at(b@, pos as int, #[trigger] spec_head(m2, a2)) implies false by {
                    lemma_at_bytes(b@, pos as int, spec_head(m2, a2));
                    assert(spec_head(m2, a2)[0] == ib);
                    if 0x10000 <= a2 < 0x1_0000_0000 {
                        assert(spec_head(m2, a2)[1] == b1);
                        assert(spec_head(m2, a2)[2] == b2);
                        assert(spec_head(m2, a2)[3] == b3);
                        assert(spec_head(m2, a2)[4] == b4);
                        lemma_decomp4(a2);
                    }
                }
            }
            return None;
        }
        proof {
            assert(b@.subrange(pos as int, pos + 5) =~= seq![ib, b1, b2, b3, b4]);
            assert(spec_head(major, v) =~= seq![ib, b1, b2, b3, b4]);
            assert forall|m2: u8, a2: u64|
                m2 < 8 && is_at(b@, pos as int, #[trigger] spec_head(m2, a2)) implies Some(
                (major, v, (pos + 5) as usize),
            ) == Some::<(u8, u64, usize)>((m2, a2, (pos + spec_head(m2, a2).len()) as usize)) by {
                lemma_at_bytes(b@, pos as int, spec_head(m2, a2));
                assert(spec_head(m2, a2)[0] == ib);
                if 0x10000 <= a2 < 0x1_0000_0000 {
                    assert(spec_head(m2, a2)[1] == b1);
                    assert(spec_head(m2, a2)[2] == b2);
                    assert(spec_head(m2, a2)[3] == b3);
                    assert(spec_head(m2, a2)[4] == b4);
                    lemma_decomp4(a2);
                }
            }
        }
        Some((major, v, pos + 5))
    } else if info == 27 {
        if b.len() - pos < 9 {
            proof {
                assert forall|m2: u8, a2: u64|
                    m2 < 8 && is_at(b@, pos as int, #[trigger] spec_head(m2, a2)) implies false by {
                    lemma_at_bytes(b@, pos as int, spec_head(m2, a2));
                    assert(spec_head(m2, a2)[0] == ib);
                }
            }
            return None;
        }
        let b1: u8 = b[pos + 1];
        let b2: u8 = b[pos + 2];
        let b3: u8 = b[pos + 3];
        let b4: u8 = b[pos + 4];
        let b5: u8 = b[pos + 5];
        let b6: u8 = b[pos + 6];
        let b7: u8 = b[pos + 7];
        let b8: u8 = b[pos + 8];
        let v: u64 = (b1 as u64) * 0x100_0000_0000_0000 + (b2 as u64) * 0x1_0000_0000_0000 + (
        b3 as u64) * 0x100_0000_0000 + (b4 as u64) * 0x1_0000_0000 + (b5 as u64) * 0x100_0000 + (
        b6 as u64) * 0x1_0000 + (b7 as u64) * 0x100 + (b8 as u64);
        proof {
            lemma_be8(v, b1, b2, b3, b4, b5, b6, b7, b8);
        }
        if v < 0x1_0000_0000 {
            proof {
                assert forall|m2: u8, a2: u64|
                    m2 < 8 && is_at(b@, pos as int, #[trigger] spec_head(m2, a2)) implies false by {
                    lemma_at_bytes(b@, pos as int, spec_head(m2, a2));
                    assert(spec_head(m2, a2)[0] == ib);
                    if a2 >= 0x1_0000_0000 {
                        assert(spec_head(m2, a2)[1] == b1);
                        assert(spec_head(m2, a2)[2] == b2);
                        assert(spec_head(m2, a2)[3] == b3);
                        assert(spec_head(m2, a2)[4] == b4);
                        assert(spec_head(m2, a2)[5] == b5);
                        assert(spec_head(m2, a2)[6] == b6);
                        assert(spec_head(m2, a2)[7] == b7);
                        assert(spec_head(m2, a2)[8] == b8);
                        lemma_decomp8(a2);
                    }
                }
            }
            return None;
        }
        proof {
            assert(b@.subrange(pos as int, pos + 9) =~= seq![ib, b1, b2, b3, b4, b5, b6, b7, b8]);
            lemma_decomp8(v);
            assert(spec_head(major, v) =~= seq![ib, b1, b2, b3, b4, b5, b6, b7, b8]);
            assert forall|m2: u8, a2: u64|
                m2 < 8 && is_at(b@, pos as int, #[trigger] spec_head(m2, a2)) implies Some(
                (major, v, (pos + 9) as usize),
            ) == Some::<(u8, u64, usize)>((m2, a2, (pos + spec_head(m2, a2).len()) as usize)) by {
                lemma_at_bytes(b@, pos as int, spec_head(m2, a2));
                assert(spec_head(m2, a2)[0] == ib);
                if a2 >= 0x1_0000_0000 {
                    assert(spec_head(m2, a2)[1] == b1);
                    assert(spec_head(m2, a2)[2] == b2);
                    assert(spec_head(m2, a2)[3] == b3);
                    assert(spec_head(m2, a2)[4] == b4);
                    assert(spec_head(m2, a2)[5] == b5);
                    assert(spec_head(m2, a2)[6] == b6);
                    assert(spec_head(m2, a2)[7] == b7);
                    assert(spec_head(m2, a2)[8] == b8);
                    lemma_decomp8(a2);
                }
            }
        }
        Some((major, v, pos + 9))
    } else {
        proof {
            assert forall|m2: u8, a2: u64|
                m2 < 8 && is_at(b@, pos as int, #[trigger] spec_head(m2, a2)) implies false by {
                lemma_at_bytes(b@, pos as int, spec_head(m2, a2));
                assert(spec_head(m2, a2)[0] == ib);
            }
        }
        None
    }
}

/// The encoding of an unsigned integer (major type 0).
pub open spec fn spec_uint(v: u64) -> Seq<u8> {
    spec_head(0, v)
}

/// The encoding of a byte string (major type 2).
pub open spec fn spec_bytes(data: Seq<u8>) -> Seq<u8>
    recommends
        data.len() <= u64::MAX,
{
    spec_head(2, data.len() as u64) + data
}

/// The encoding of a text string (major type 3): the UTF-8 bytes of its
/// characters, length-prefixed.
pub open spec fn spec_text(s: Seq<char>) -> Seq<u8>
    recommends
        vstd::utf8::encode_utf8(s).len() <= u64::MAX,
{
    spec_head(3, vstd::utf8::encode_utf8(s).len() as u64) + vstd::utf8::encode_utf8(s)
}

/// The head of an array of `n` items (major type 4); the items follow.
pub open spec fn spec_array_head(n: u64) -> Seq<u8> {
    spec_head(4, n)
}

/// The head of a map of `n` pairs (major type 5); the pairs follow.
pub open spec fn spec_map_head(n: u64) -> Seq<u8> {
    spec_head(5, n)
}

/// The encoding of null (used for an absent optional value).
pub open spec fn spec_null() -> Seq<u8> {
    seq![0xf6u8]
}

/// Relies on String::from_utf8: succeeds exactly on valid UTF-8 and returns
/// the string those bytes encode.
#[verifier::external_body]
pub(crate) fn string_from_utf8(v: Vec<u8>) -> (r: Option<String>)
    ensures
        r is Some <==> vstd::utf8::valid_utf8(v@),
        r matches Some(s) ==> vstd::utf8::encode_utf8(s@) == v@,
{
    String::from_utf8(v).ok()
}

/// Appends the encoding of an unsigned integer.
pub fn enc_uint(out: &mut Vec<u8>, v: u64)
    ensures
        final(out)@ =~= old(out)@ + spec_uint(v),
{
    write_head(out, 0, v);
}

/// Appends the encoding of a byte string.
pub fn enc_bytes(out: &mut Vec<u8>, data: &[u8])
    ensures
        final(out)@ =~= old(out)@ + spec_bytes(data@),
{
    write_head(out, 2, data.len() as u64);
    out.extend_from_slice(data);
}

/// Appends the encoding of a text string.
pub fn enc_text(out: &mut Vec<u8>, s: &str)
    ensures
        final(out)@ =~= old(out)@ + spec_text(s@),
{
    let bv = s.as_bytes();
    write_head(out, 3, bv.len() as u64);
    out.extend_from_slice(bv);
}

/// Appends an array head for `n` items.
pub fn enc_array_head(out: &mut Vec<u8>, n: u64)
    ensures
        final(out)@ =~= old(out)@ + spec_array_head(n),
{
    write_head(out, 4, n);
}

/// Appends a map head for `n` pairs.
pub fn enc_map_head(out: &mut Vec<u8>, n: u64)
    ensures
        final(out)@ =~= old(out)@ + spec_map_head(n),
{
    write_head(out, 5, n);
}

/// Appends the encoding of null.
pub fn enc_null(out: &mut Vec<u8>)
    ensures
        final(out)@ =~= old(out)@ + spec_null(),
{
    out.push(0xf6);
}

/// Reads an unsigned integer at `pos`.
pub fn dec_uint(b: &Vec<u8>, pos: usize) -> (r: Option<(u64, usize)>)
    ensures
        r matches Some((v, end)) ==> {
            &&& pos < end <= b@.len()
            &&& end - pos == spec_uint(v).len()
            &&& is_at(b@, pos as int, spec_uint(v))
        },
        forall|v: u64|
            is_at(b@, pos as int, #[trigger] spec_uint(v)) ==> r == Some(
                (v, (pos + spec_uint(v).len()) as usize),
            ),
{
    match read_head(b, pos) {
        Some((0, v, end)) => Some((v, end)),
        _ => None,
    }
}

/// Reads an array head at `pos`, returning the item count.
pub fn dec_array_head(b: &Vec<u8>, pos: usize) -> (r: Option<(u64, usize)>)
    ensures
        r matches Some((n, end)) ==> {
            &&& pos < end <= b@.len()
            &&& end - pos == spec_array_head(n).len()
            &&& is_at(b@, pos as int, spec_array_head(n))
        },
        forall|n: u64|
            is_at(b@, pos as int, #[trigger] spec_array_head(n)) ==> r == Some(
                (n, (pos + spec_array_head(n).len()) as usize),
            ),
{
    match read_head(b, pos) {
        Some((4, n, end)) => Some((n, end)),
        _ => None,
    }
}

/// Reads a map head at `pos`, returning the pair count.
pub fn dec_map_head(b: &Vec<u8>, pos: usize) -> (r: Option<(u64, usize)>)
    ensures
        r matches Some((n, end)) ==> {
            &&& pos < end <= b@.len()
            &&& end - pos == spec_map_head(n).len()
            &&& is_at(b@, pos as int, spec_map_head(n))
        },
        forall|n: u64|
            is_at(b@, pos as int, #[trigger] spec_map_head(n)) ==> r == Some(
                (n, (pos + spec_map_head(n).len()) as usize),
            ),
{
    match read_head(b, pos) {
        Some((5, n, end)) => Some((n, end)),
        _ => None,
    }
}

/// Reads a byte string at `pos`.
pub fn dec_bytes(b: &Vec<u8>, pos: usize) -> (r: Option<(Vec<u8>, usize)>)
    ensures
        r matches Some((v, end)) ==> {
            &&& pos < end <= b@.len()
            &&& end - pos == spec_bytes(v@).len()
            &&& is_at(b@, pos as int, spec_bytes(v@))
        },
        forall|d: Seq<u8>|
            is_at(b@, pos as int, #[trigger] spec_bytes(d)) ==> (r matches Some((v, end)) && v@
                == d && end == pos + spec_bytes(d).len()),
{
    let head = read_head(b, pos);
    match head {
        Some((2, n, p1)) => {
            if n > (b.len() - p1) as u64 {
                proof {
                    assert forall|d: Seq<u8>|
                        is_at(b@, pos as int, #[trigger] spec_bytes(d)) implies false by {
                        lemma_is_at_concat(b@, pos as int, spec_head(2, d.len() as u64), d);
                    }
                }
                return None;
            }
            let nn: usize = n as usize;
            let data = vstd::slice::slice_to_vec(
                vstd::slice::slice_subrange(b.as_slice(), p1, p1 + nn),
            );
            proof {
                assert(b@.subrange(pos as int, p1 + nn as int) =~= spec_head(2, n) + b@.subrange(
                    p1 as int,
                    p1 + nn as int,
                ));
                assert forall|d: Seq<u8>|
                    is_at(b@, pos as int, #[trigger] spec_bytes(d)) implies data@ == d && p1
                    + nn as int == pos + spec_bytes(d).len() by {
                    lemma_is_at_concat(b@, pos as int, spec_head(2, d.len() as u64), d);
                }
            }
            Some((data, p1 + nn))
        },
        _ => {
            proof {
                assert forall|d: Seq<u8>|
                    is_at(b@, pos as int, #[trigger] spec_bytes(d)) implies false by {
                    lemma_is_at_concat(b@, pos as int, spec_head(2, d.len() as u64), d);
                }
            }
            None
        },
    }
}

/// Reads a text string at `pos`; the bytes must be valid UTF-8.
pub fn dec_text(b: &Vec<u8>, pos: usize) -> (r: Option<(String, usize)>)
    ensures
        r matches Some((s, end)) ==> {
            &&& pos < end <= b@.len()
            &&& end - pos == spec_text(s@).len()
            &&& is_at(b@, pos as int, spec_text(s@))
        },
        forall|t: Seq<char>|
            is_at(b@, pos as int, #[trigger] spec_text(t)) ==> (r matches Some((s, end)) && s@
                == t && end == pos + spec_text(t).len()),
{
    broadcast use vstd::utf8::encode_utf8_valid_utf8, vstd::utf8::encode_utf8_decode_utf8;

    let head = read_head(b, pos);
    match head {
        Some((3, n, p1)) => {
            if n > (b.len() - p1) as u64 {
                proof {
                    assert forall|t: Seq<char>|
                        is_at(b@, pos as int, #[trigger] spec_text(t)) implies false by {
                        lemma_is_at_concat(
                            b@,
                            pos as int,
                            spec_head(3, vstd::utf8::encode_utf8(t).len() as u64),
                            vstd::utf8::encode_utf8(t),
                        );
                    }
                }
                return None;
            }
            let nn: usize = n as usize;
            let data = vstd::slice::slice_to_vec(
                vstd::slice::slice_subrange(b.as_slice(), p1, p1 + nn),
            );
            let ghost raw = data@;
            match string_from_utf8(data) {
                Some(s) => {
                    proof {
                        assert(b@.subrange(pos as int, p1 + nn as int) =~= spec_head(3, n)
                            + b@.subrange(p1 as int, p1 + nn as int));
                        assert(spec_text(s@) =~= spec_head(3, n) + raw);
                        assert forall|t: Seq<char>|
                            is_at(b@, pos as int, #[trigger] spec_text(t)) implies s@ == t && p1
                            + nn as int == pos + spec_text(t).len() by {
                            lemma_is_at_concat(
                                b@,
                                pos as int,
                                spec_head(3, vstd::utf8::encode_utf8(t).len() as u64),
                                vstd::utf8::encode_utf8(t),
                            );
                            assert(vstd::utf8::encode_utf8(t) == raw);
                            assert(vstd::utf8::decode_utf8(vstd::utf8::encode_utf8(t)) == t);
                            assert(vstd::utf8::decode_utf8(vstd::utf8::encode_utf8(s@)) == s@);
                        }
                    }
                    Some((s, p1 + nn))
                },
                None => {
                    proof {
                        assert forall|t: Seq<char>|
                            is_at(b@, pos as int, #[trigger] spec_text(t)) implies false by {
                            lemma_is_at_concat(
                                b@,
                                pos as int,
                                spec_head(3, vstd::utf8::encode_utf8(t).len() as u64),
                                vstd::utf8::encode_utf8(t),
                            );
                            assert(vstd::utf8::encode_utf8(t) == raw);
                        }
                    }
                    None
                },
            }
        },
        _ => {
            proof {
                assert forall|t: Seq<char>|
                    is_at(b@, pos as int, #[trigger] spec_text(t)) implies false by {
                    lemma_is_at_concat(
                        b@,
                        pos as int,
                        spec_head(3, vstd::utf8::encode_utf8(t).len() as u64),
                        vstd::utf8::encode_utf8(t),
                    );
                }
            }
            None
        },
    }
}

/// Reads a null at `pos`.
pub fn dec_null(b: &Vec<u8>, pos: usize) -> (r: Option<usize>)
    ensures
        r matches Some(end) ==> {
            &&& pos < end <= b@.len()
            &&& end - pos == spec_null().len()
            &&& is_at(b@, pos as int, spec_null())
        },
        is_at(b@, pos as int, spec_null()) ==> r == Some((pos + spec_null().len()) as usize),
{
    if pos < b.len() && b[pos] == 0xf6 {
        proof {
            assert(b@.subrange(pos as int, pos + 1) =~= spec_null());
        }
        Some(pos + 1)
    } else {
        proof {
            if is_at(b@, pos as int, spec_null()) {
                assert(spec_null().len() == 1);
                assert(pos + 1 <= b@.len());
                assert(b@.subrange(pos as int, pos + 1) == spec_null());
                assert(b@[pos as int] == b@.subrange(pos as int, pos + 1)[0]);
                assert(spec_null()[0] == 0xf6);
                assert(false);
            }
        }
        None
    }
}

/// Splits an occurrence of a concatenation into occurrences of its parts.
pub proof fn lemma_is_at_concat(b: Seq<u8>, pos: int, s1: Seq<u8>, s2: Seq<u8>)
    requires
        is_at(b, pos, s1 + s2),
    ensures
        is_at(b, pos, s1),
        is_at(b, pos + s1.len(), s2),
{
    assert(b.subrange(pos, pos + s1.len()) =~= (s1 + s2).subrange(0, s1.len() as int));
    assert((s1 + s2).subrange(0, s1.len() as int) =~= s1);
    assert(b.subrange(pos + s1.len(), pos + s1.len() + s2.len()) =~= (s1 + s2).subrange(
        s1.len() as int,
        (s1 + s2).len() as int,
    ));
    assert((s1 + s2).subrange(s1.len() as int, (s1 + s2).len() as int) =~= s2);
}

} // verus!

//! Base64 transport encoding for binary payloads, in the standard alphabet
//! with `=` padding, together with the canonical decoder.  The remote
//! translation service carries audio uploads and (in some revisions) its
//! reply text in this form.

use vstd::prelude::*;

verus! {

/// Padding byte `=`.
pub const PAD: u8 = 0x3d;

/// The standard base64 alphabet: the byte encoding the 6-bit value `v`.
pub open spec fn b64_char_of(v: int) -> u8
    recommends
        0 <= v < 64,
{
    if v < 26 {
        (0x41 + v) as u8  // 'A'..='Z'
    } else if v < 52 {
        (0x61 + (v - 26)) as u8  // 'a'..='z'
    } else if v < 62 {
        (0x30 + (v - 52)) as u8  // '0'..='9'
    } else if v == 62 {
        0x2b  // '+'
    } else {
        0x2f  // '/'
    }
}

/// The 6-bit value a byte stands for in the standard alphabet, if any.
pub open spec fn b64_val_of(c: u8) -> Option<int> {
    if 0x41 <= c <= 0x5a {
        Some((c - 0x41) as int)
    } else if 0x61 <= c <= 0x7a {
        Some(26 + (c - 0x61) as int)
    } else if 0x30 <= c <= 0x39 {
        Some(52 + (c - 0x30) as int)
    } else if c == 0x2b {
        Some(62int)
    } else if c == 0x2f {
        Some(63int)
    } else {
        None
    }
}

/// The alphabet and its value table are inverse to each other.
pub proof fn lemma_b64_alphabet_inverse(v: int)
    requires
        0 <= v < 64,
    ensures
        b64_val_of(b64_char_of(v)) == Some(v),
        b64_char_of(v) != PAD,
        b64_char_of(v) < 0x80,
{
}

/// The four output bytes encoding one full group of three input bytes.
pub open spec fn b64_group(a: u8, b: u8, c: u8) -> Seq<u8> {
    seq![
        b64_char_of(a as int / 4),
        b64_char_of((a as int % 4) * 16 + b as int / 16),
        b64_char_of((b as int % 16) * 4 + c as int / 64),
        b64_char_of(c as int % 64),
    ]
}

/// The base64 encoding of a byte sequence, with canonical padding.
pub open spec fn b64_encode_spec(s: Seq<u8>) -> Seq<u8>
    decreases s.len(),
{
    if s.len() == 0 {
        seq![]
    } else if s.len() == 1 {
        let a = s[0] as int;
        seq![b64_char_of(a / 4), b64_char_of((a % 4) * 16), PAD, PAD]
    } else if s.len() == 2 {
        let a = s[0] as int;
        let b = s[1] as int;
        seq![b64_char_of(a / 4), b64_char_of((a % 4) * 16 + b / 16), b64_char_of((b % 16) * 4), PAD]
    } else {
        b64_group(s[0], s[1], s[2]) + b64_encode_spec(s.skip(3))
    }
}

/// The three bytes spelled by one full (unpadded) group, when all four
/// bytes are alphabet bytes.
pub open spec fn b64_decode_quad(c0: u8, c1: u8, c2: u8, c3: u8) -> Option<Seq<u8>> {
    match (b64_val_of(c0), b64_val_of(c1), b64_val_of(c2), b64_val_of(c3)) {
        (Some(v0), Some(v1), Some(v2), Some(v3)) => Some(
            seq![
                (v0 * 4 + v1 / 16) as u8,
                ((v1 % 16) * 16 + v2 / 4) as u8,
                ((v2 % 4) * 64 + v3) as u8,
            ],
        ),
        _ => None,
    }
}

/// The bytes spelled by the final group of a canonical encoding, which may
/// carry one or two padding bytes.
pub open spec fn b64_decode_last(c0: u8, c1: u8, c2: u8, c3: u8) -> Option<Seq<u8>> {
    if c2 == PAD && c3 == PAD {
        match (b64_val_of(c0), b64_val_of(c1)) {
            (Some(v0), Some(v1)) => if v1 % 16 == 0 {
                Some(seq![(v0 * 4 + v1 / 16) as u8])
            } else {
                None
            },
            _ => None,
        }
    } else if c3 == PAD {
        match (b64_val_of(c0), b64_val_of(c1), b64_val_of(c2)) {
            (Some(v0), Some(v1), Some(v2)) => if v2 % 4 == 0 {
                Some(seq![(v0 * 4 + v1 / 16) as u8, ((v1 % 16) * 16 + v2 / 4) as u8])
            } else {
                None
            },
            _ => None,
        }
    } else {
        b64_decode_quad(c0, c1, c2, c3)
    }
}

/// The canonical base64 decoding: `Some` exactly on the strings that
/// `b64_encode_spec` produces.
pub open spec fn b64_decode_spec(s: Seq<u8>) -> Option<Seq<u8>>
    decreases s.len(),
{
    if s.len() == 0 {
        Some(seq![])
    } else if s.len() < 4 || s.len() % 4 != 0 {
        None
    } else if s.len() == 4 {
        b64_decode_last(s[0], s[1], s[2], s[3])
    } else {
        match (b64_decode_quad(s[0], s[1], s[2], s[3]), b64_decode_spec(s.skip(4))) {
            (Some(bytes), Some(rest)) => Some(bytes + rest),
            _ => None,
        }
    }
}

/// Digit arithmetic for one full group: splitting three bytes into four
/// 6-bit values and reassembling them gives the bytes back.
proof fn lemma_group_arith(a: u8, b: u8, c: u8)
    ensures
        0 <= a / 4 < 64,
        0 <= (a % 4) * 16 + b / 16 < 64,
        0 <= (b % 16) * 4 + c / 64 < 64,
        0 <= c % 64 < 64,
        (a / 4) * 4 + ((a % 4) * 16 + b / 16) / 16 == a,
        (((a % 4) * 16 + b / 16) % 16) * 16 + ((b % 16) * 4 + c / 64) / 4 == b,
        (((b % 16) * 4 + c / 64) % 4) * 64 + (c % 64) == c,
{
    assert(a / 4 < 64 && b / 16 < 16 && c / 64 < 4 && c % 64 < 64) by (nonlinear_arith);
    assert((a % 4) * 16 + b / 16 < 64) by (nonlinear_arith);
    assert((b % 16) * 4 + c / 64 < 64) by (nonlinear_arith);
    assert((a / 4) * 4 + ((a % 4) * 16 + b / 16) / 16 == a) by (nonlinear_arith);
    assert((((a % 4) * 16 + b / 16) % 16) * 16 + ((b % 16) * 4 + c / 64) / 4 == b)
        by (nonlinear_arith);
    assert((((b % 16) * 4 + c / 64) % 4) * 64 + (c % 64) == c) by (nonlinear_arith);
}

/// Digit arithmetic for a final group carrying two padding bytes.
proof fn lemma_tail1_arith(a: u8)
    ensures
        0 <= a / 4 < 64,
        0 <= (a % 4) * 16 < 64,
        ((a % 4) * 16) % 16 == 0,
        (a / 4) * 4 + ((a % 4) * 16) / 16 == a,
{
    assert(a / 4 < 64 && (a % 4) * 16 < 64 && ((a % 4) * 16) % 16 == 0 && (a / 4) * 4 + ((a % 4)
        * 16) / 16 == a) by (nonlinear_arith);
}

/// Digit arithmetic for a final group carrying one padding byte.
proof fn lemma_tail2_arith(a: u8, b: u8)
    ensures
        0 <= a / 4 < 64,
        0 <= (a % 4) * 16 + b / 16 < 64,
        0 <= (b % 16) * 4 < 64,
        ((b % 16) * 4) % 4 == 0,
        (a / 4) * 4 + ((a % 4) * 16 + b / 16) / 16 == a,
        (((a % 4) * 16 + b / 16) % 16) * 16 + ((b % 16) * 4) / 4 == b,
{
    assert(a / 4 < 64 && b / 16 < 16) by (nonlinear_arith);
    assert((a % 4) * 16 + b / 16 < 64) by (nonlinear_arith);
    assert((b % 16) * 4 < 64 && ((b % 16) * 4) % 4 == 0) by (nonlinear_arith);
    assert((a / 4) * 4 + ((a % 4) * 16 + b / 16) / 16 == a) by (nonlinear_arith);
    assert((((a % 4) * 16 + b / 16) % 16) * 16 + ((b % 16) * 4) / 4 == b) by (nonlinear_arith);
}

/// The length of an encoding is a positive multiple of four whenever the
/// input is non-empty.
pub proof fn lemma_b64_encode_len(s: Seq<u8>)
    ensures
        b64_encode_spec(s).len() % 4 == 0,
        s.len() > 0 ==> b64_encode_spec(s).len() >= 4,
    decreases s.len(),
{
    if s.len() > 2 {
        lemma_b64_encode_len(s.skip(3));
    }
}

/// Decoding inverts encoding: every byte sequence survives the round trip
/// through the base64 transport.
pub proof fn lemma_b64_round_trip(s: Seq<u8>)
    ensures
        b64_decode_spec(b64_encode_spec(s)) == Some(s),
    decreases s.len(),
{
    let e = b64_encode_spec(s);
    if s.len() == 0 {
        assert(b64_decode_spec(e) == Some(s));
    } else if s.len() == 1 {
        let a = s[0];
        lemma_tail1_arith(a);
        lemma_b64_alphabet_inverse(a as int / 4);
        lemma_b64_alphabet_inverse((a as int % 4) * 16);
        assert(b64_decode_spec(e) == b64_decode_last(e[0], e[1], e[2], e[3]));
        assert(b64_decode_last(e[0], e[1], e[2], e[3]) == Some(seq![a]));
        assert(seq![a] =~= s);
    } else if s.len() == 2 {
        let a = s[0];
        let b = s[1];
        lemma_tail2_arith(a, b);
        lemma_b64_alphabet_inverse(a as int / 4);
        lemma_b64_alphabet_inverse((a as int % 4) * 16 + b as int / 16);
        lemma_b64_alphabet_inverse((b as int % 16) * 4);
        assert(b64_decode_spec(e) == b64_decode_last(e[0], e[1], e[2], e[3]));
        assert(b64_decode_last(e[0], e[1], e[2], e[3]) == Some(seq![a, b]));
        assert(seq![a, b] =~= s);
    } else {
        let a = s[0];
        let b = s[1];
        let c = s[2];
        let rest = s.skip(3);
        lemma_group_arith(a, b, c);
        lemma_b64_alphabet_inverse(a as int / 4);
        lemma_b64_alphabet_inverse((a as int % 4) * 16 + b as int / 16);
        lemma_b64_alphabet_inverse((b as int % 16) * 4 + c as int / 64);
        lemma_b64_alphabet_inverse(c as int % 64);
        lemma_b64_round_trip(rest);
        lemma_b64_encode_len(rest);
        assert(b64_decode_quad(e[0], e[1], e[2], e[3]) == Some(seq![a, b, c]));
        if rest.len() == 0 {
            assert(e.len() == 4);
            assert(b64_decode_last(e[0], e[1], e[2], e[3]) == b64_decode_quad(
                e[0],
                e[1],
                e[2],
                e[3],
            ));
            assert(seq![a, b, c] =~= s);
        } else {
            assert(e.len() >= 8);
            assert(e.len() % 4 == 0);
            assert(e.skip(4) =~= b64_encode_spec(rest));
            assert(b64_decode_spec(e) == Some(seq![a, b, c] + rest));
            assert(seq![a, b, c] + rest =~= s);
        }
    }
}

/// Every byte of an encoding is ASCII.
pub proof fn lemma_b64_encode_ascii(s: Seq<u8>)
    ensures
        forall|i: int| 0 <= i < b64_encode_spec(s).len() ==> #[trigger] b64_encode_spec(s)[i]
            < 0x80,
    decreases s.len(),
{
    if s.len() > 2 {
        lemma_b64_encode_ascii(s.skip(3));
        assert forall|i: int| 0 <= i < b64_encode_spec(s).len() implies #[trigger] b64_encode_spec(
            s,
        )[i] < 0x80 by {
            if i >= 4 {
                assert(b64_encode_spec(s)[i] == b64_encode_spec(s.skip(3))[i - 4]);
            }
        }
    }
}

/// The alphabet byte for the 6-bit value `v`.
fn b64_char(v: u8) -> (r: u8)
    requires
        v < 64,
    ensures
        r == b64_char_of(v as int),
{
    if v < 26 {
        0x41 + v
    } else if v < 52 {
        0x61 + (v - 26)
    } else if v < 62 {
        0x30 + (v - 52)
    } else if v == 62 {
        0x2b
    } else {
        0x2f
    }
}

/// The 6-bit value of an alphabet byte, or `None` for any other byte.
fn b64_val(c: u8) -> (r: Option<u8>)
    ensures
        match r {
            Some(v) => b64_val_of(c) == Some(v as int),
            None => b64_val_of(c) is None,
        },
{
    if 0x41 <= c && c <= 0x5a {
        Some(c - 0x41)
    } else if 0x61 <= c && c <= 0x7a {
        Some(26 + (c - 0x61))
    } else if 0x30 <= c && c <= 0x39 {
        Some(52 + (c - 0x30))
    } else if c == 0x2b {
        Some(62)
    } else if c == 0x2f {
        Some(63)
    } else {
        None
    }
}

/// Encodes a byte sequence in standard base64 with padding.
pub fn b64_encode(bytes: &Vec<u8>) -> (r: Vec<u8>)
    ensures
        r@ == b64_encode_spec(bytes@),
{
    let mut out: Vec<u8> = Vec::new();
    let mut i: usize = 0;
    proof {
        assert(bytes@.skip(0) =~= bytes@);
        assert(out@ + b64_encode_spec(bytes@) =~= b64_encode_spec(bytes@));
    }
    while bytes.len() - i >= 3
        invariant
            0 <= i <= bytes@.len(),
            b64_encode_spec(bytes@) == out@ + b64_encode_spec(bytes@.skip(i as int)),
        decreases bytes@.len() - i,
    {
        let a = bytes[i];
        let b = bytes[i + 1];
        let c = bytes[i + 2];
        proof {
            lemma_group_arith(a, b, c);
        }
        out.push(b64_char(a / 4));
        out.push(b64_char((a % 4) * 16 + b / 16));
        out.push(b64_char((b % 16) * 4 + c / 64));
        out.push(b64_char(c % 64));
        proof {
            let tail = bytes@.skip(i as int);
            assert(tail[0] == a && tail[1] == b && tail[2] == c);
            assert(tail.skip(3) =~= bytes@.skip(i + 3));
            assert(b64_encode_spec(tail) == b64_group(a, b, c) + b64_encode_spec(
                bytes@.skip(i + 3),
            ));
        }
        i += 3;
    }
    let remaining = bytes.len() - i;
    if remaining == 1 {
        let a = bytes[i];
        proof {
            lemma_tail1_arith(a);
            assert(bytes@.skip(i as int) =~= seq![a]);
        }
        out.push(b64_char(a / 4));
        out.push(b64_char((a % 4) * 16));
        out.push(PAD);
        out.push(PAD);
    } else if remaining == 2 {
        let a = bytes[i];
        let b = bytes[i + 1];
        proof {
            lemma_tail2_arith(a, b);
            assert(bytes@.skip(i as int) =~= seq![a, b]);
        }
        out.push(b64_char(a / 4));
        out.push(b64_char((a % 4) * 16 + b / 16));
        out.push(b64_char((b % 16) * 4));
        out.push(PAD);
    } else {
        proof {
            assert(bytes@.skip(i as int) =~= Seq::<u8>::empty());
        }
    }
    proof {
        assert(out@ =~= b64_encode_spec(bytes@));
    }
    out
}

/// Decodes canonical standard base64, or returns `None` for any input that
/// no byte sequence encodes to.
#[verifier::rlimit(60)]
pub fn b64_decode(data: &Vec<u8>) -> (r: Option<Vec<u8>>)
    ensures
        r is Some <==> b64_decode_spec(data@) is Some,
        r is Some ==> r.unwrap()@ == b64_decode_spec(data@).unwrap(),
{
    if data.len() == 0 {
        let empty: Vec<u8> = Vec::new();
        proof {
            assert(empty@ =~= b64_decode_spec(data@).unwrap());
        }
        return Some(empty);
    }
    if data.len() < 4 || data.len() % 4 != 0 {
        return None;
    }
    let mut out: Vec<u8> = Vec::new();
    let mut i: usize = 0;
    proof {
        assert(data@.skip(0) =~= data@);
        match b64_decode_spec(data@) {
            Some(tail) => {
                assert(out@ + tail =~= tail);
            },
            None => {},
        }
    }
    while data.len() - i > 4
        invariant
            0 <= i <= data@.len() - 4,
            i % 4 == 0,
            data@.len() % 4 == 0,
            data@.len() >= 4,
            match b64_decode_spec(data@.skip(i as int)) {
                Some(tail) => b64_decode_spec(data@) == Some(out@ + tail),
                None => b64_decode_spec(data@) is None,
            },
        decreases data@.len() - i,
    {
        let c0 = data[i];
        let c1 = data[i + 1];
        let c2 = data[i + 2];
        let c3 = data[i + 3];
        proof {
            let tail = data@.skip(i as int);
            assert(tail.len() > 4 && tail.len() % 4 == 0);
            assert(tail[0] == c0 && tail[1] == c1 && tail[2] == c2 && tail[3] == c3);
            assert(tail.skip(4) =~= data@.skip(i + 4));
        }
        let v0 = b64_val(c0);
        let v1 = b64_val(c1);
        let v2 = b64_val(c2);
        let v3 = b64_val(c3);
        match (v0, v1, v2, v3) {
            (Some(v0), Some(v1), Some(v2), Some(v3)) => {
                proof {
                    assert(v0 < 64 && v1 < 64 && v2 < 64 && v3 < 64);
                    assert(v0 * 4 + v1 / 16 < 256 && (v1 % 16) * 16 + v2 / 4 < 256 && (v2 % 4) * 64
                        + v3 < 256) by (nonlinear_arith)
                        requires
                            v0 < 64 && v1 < 64 && v2 < 64 && v3 < 64,
                    ;
                }
                out.push(v0 * 4 + v1 / 16);
                out.push((v1 % 16) * 16 + v2 / 4);
                out.push((v2 % 4) * 64 + v3);
            },
            _ => {
                return None;
            },
        }
        i += 4;
    }
    let c0 = data[i];
    let c1 = data[i + 1];
    let c2 = data[i + 2];
    let c3 = data[i + 3];
    proof {
        let tail = data@.skip(i as int);
        assert(tail.len() == 4);
        assert(tail[0] == c0 && tail[1] == c1 && tail[2] == c2 && tail[3] == c3);
        assert(b64_decode_spec(tail) == b64_decode_last(c0, c1, c2, c3));
    }
    if c2 == PAD && c3 == PAD {
        let v0 = b64_val(c0);
        let v1 = b64_val(c1);
        match (v0, v1) {
            (Some(v0), Some(v1)) => {
                if v1 % 16 != 0 {
                    return None;
                }
                proof {
                    assert(v0 * 4 + v1 / 16 < 256) by (nonlinear_arith)
                        requires
                            v0 < 64 && v1 < 64,
                    ;
                }
                out.push(v0 * 4 + v1 / 16);
                proof {
                    assert(out@ =~= b64_decode_spec(data@).unwrap());
                }
                Some(out)
            },
            _ => None,
        }
    } else if c3 == PAD {
        let v0 = b64_val(c0);
        let v1 = b64_val(c1);
        let v2 = b64_val(c2);
        match (v0, v1, v2) {
            (Some(v0), Some(v1), Some(v2)) => {
                if v2 % 4 != 0 {
                    return None;
                }
                proof {
                    assert(v0 * 4 + v1 / 16 < 256 && (v1 % 16) * 16 + v2 / 4 < 256)
                        by (nonlinear_arith)
                        requires
                            v0 < 64 && v1 < 64 && v2 < 64,
                    ;
                }
                out.push(v0 * 4 + v1 / 16);
                out.push((v1 % 16) * 16 + v2 / 4);
                proof {
                    assert(out@ =~= b64_decode_spec(data@).unwrap());
                }
                Some(out)
            },
            _ => None,
        }
    } else {
        let v0 = b64_val(c0);
        let v1 = b64_val(c1);
        let v2 = b64_val(c2);
        let v3 = b64_val(c3);
        match (v0, v1, v2, v3) {
            (Some(v0), Some(v1), Some(v2), Some(v3)) => {
                proof {
                    assert(v0 * 4 + v1 / 16 < 256 && (v1 % 16) * 16 + v2 / 4 < 256 && (v2 % 4) * 64
                        + v3 < 256) by (nonlinear_arith)
                        requires
                            v0 < 64 && v1 < 64 && v2 < 64 && v3 < 64,
                    ;
                }
                out.push(v0 * 4 + v1 / 16);
                out.push((v1 % 16) * 16 + v2 / 4);
                out.push((v2 % 4) * 64 + v3);
                proof {
                    assert(out@ =~= b64_decode_spec(data@).unwrap());
                }
                Some(out)
            },
            _ => None,
        }
    }
}

} // verus!

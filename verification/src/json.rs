//! The JSON fragment of the service's wire contract, over UTF-8 bytes: the
//! string escaping used when building a request envelope, and the parser
//! for a response body that consists of one JSON string literal.  Escape
//! sequences follow the JSON grammar, including `\uXXXX` code units and
//! surrogate pairs.

use vstd::prelude::*;
use vstd::utf8::*;

verus! {

/// Double quote `"`.
pub const QUOTE: u8 = 0x22;

/// Backslash `\`.
pub const BACKSLASH: u8 = 0x5c;

/// Insignificant whitespace around a JSON value.
pub open spec fn is_json_ws(b: u8) -> bool {
    b == 0x20 || b == 0x09 || b == 0x0a || b == 0x0d
}

/// The lowercase hex digit for a value below 16.
pub open spec fn hex_char_of(v: int) -> u8
    recommends
        0 <= v < 16,
{
    if v < 10 {
        (0x30 + v) as u8
    } else {
        (0x57 + v) as u8
    }
}

/// The value of a hex digit byte, upper or lower case.
pub open spec fn hex_val_of(b: u8) -> Option<u32> {
    if 0x30 <= b <= 0x39 {
        Some((b - 0x30) as u32)
    } else if 0x41 <= b <= 0x46 {
        Some((10 + (b - 0x41)) as u32)
    } else if 0x61 <= b <= 0x66 {
        Some((10 + (b - 0x61)) as u32)
    } else {
        None
    }
}

/// The value of four hex digit bytes, most significant first.
pub open spec fn hex_quad(s: Seq<u8>) -> Option<u32>
    recommends
        s.len() == 4,
{
    match (hex_val_of(s[0]), hex_val_of(s[1]), hex_val_of(s[2]), hex_val_of(s[3])) {
        (Some(v0), Some(v1), Some(v2), Some(v3)) => Some(
            (v0 * 0x1000 + v1 * 0x100 + v2 * 0x10 + v3) as u32,
        ),
        _ => None,
    }
}

/// The escape sequence a byte is written as inside a JSON string: itself
/// for ordinary bytes, a two-byte escape for quote, backslash and the
/// common control characters, and `\u00XX` for the remaining controls.
/// Multi-byte UTF-8 sequences pass through unescaped.
pub open spec fn escape_byte(b: u8) -> Seq<u8> {
    if b == QUOTE {
        seq![BACKSLASH, QUOTE]
    } else if b == BACKSLASH {
        seq![BACKSLASH, BACKSLASH]
    } else if b == 0x08 {
        seq![BACKSLASH, 0x62]
    } else if b == 0x0c {
        seq![BACKSLASH, 0x66]
    } else if b == 0x0a {
        seq![BACKSLASH, 0x6e]
    } else if b == 0x0d {
        seq![BACKSLASH, 0x72]
    } else if b == 0x09 {
        seq![BACKSLASH, 0x74]
    } else if b < 0x20 {
        seq![BACKSLASH, 0x75, 0x30, 0x30, hex_char_of(b as int / 16), hex_char_of(b as int % 16)]
    } else {
        seq![b]
    }
}

/// The JSON escaping of a whole byte sequence.
pub open spec fn escape_json(s: Seq<u8>) -> Seq<u8>
    decreases s.len(),
{
    if s.len() == 0 {
        seq![]
    } else {
        escape_byte(s[0]) + escape_json(s.drop_first())
    }
}

/// Escaping distributes over concatenation.
pub proof fn lemma_escape_concat(a: Seq<u8>, b: Seq<u8>)
    ensures
        escape_json(a + b) == escape_json(a) + escape_json(b),
    decreases a.len(),
{
    if a.len() == 0 {
        assert(a + b =~= b);
        assert(escape_json(a) + escape_json(b) =~= escape_json(b));
    } else {
        assert((a + b).drop_first() =~= a.drop_first() + b);
        lemma_escape_concat(a.drop_first(), b);
        assert(escape_byte(a[0]) + (escape_json(a.drop_first()) + escape_json(b)) =~= (escape_byte(
            a[0],
        ) + escape_json(a.drop_first())) + escape_json(b));
    }
}

/// The scalar written by a surrogate pair of UTF-16 code units.
pub open spec fn surrogate_scalar(hi: u32, lo: u32) -> u32
    recommends
        0xd800 <= hi < 0xdc00,
        0xdc00 <= lo < 0xe000,
{
    (0x10000 + (hi - 0xd800) * 0x400 + (lo - 0xdc00)) as u32
}

/// The bytes written by the escape sequence starting at the head of `s`
/// (which must be a backslash), together with the number of input bytes
/// the sequence occupies: 2 for the short escapes, 6 for one `\uXXXX`
/// code unit, 12 for a surrogate pair.
pub open spec fn esc_payload(s: Seq<u8>) -> Option<(Seq<u8>, int)> {
    if s.len() < 2 {
        None
    } else {
        let e = s[1];
        if e == QUOTE || e == BACKSLASH || e == 0x2f {
            Some((seq![e], 2))
        } else if e == 0x62 {
            Some((seq![0x08u8], 2))
        } else if e == 0x66 {
            Some((seq![0x0cu8], 2))
        } else if e == 0x6e {
            Some((seq![0x0au8], 2))
        } else if e == 0x72 {
            Some((seq![0x0du8], 2))
        } else if e == 0x74 {
            Some((seq![0x09u8], 2))
        } else if e == 0x75 {
            if s.len() < 6 {
                None
            } else {
                match hex_quad(s.subrange(2, 6)) {
                    None => None,
                    Some(u) => if 0xd800 <= u < 0xdc00 {
                        if s.len() < 12 || s[6] != BACKSLASH || s[7] != 0x75 {
                            None
                        } else {
                            match hex_quad(s.subrange(8, 12)) {
                                None => None,
                                Some(l) => if 0xdc00 <= l < 0xe000 {
                                    Some((encode_scalar(surrogate_scalar(u, l)), 12))
                                } else {
                                    None
                                },
                            }
                        }
                    } else if 0xdc00 <= u < 0xe000 {
                        None
                    } else {
                        Some((encode_scalar(u), 6))
                    },
                }
            }
        } else {
            None
        }
    }
}

/// An escape sequence occupies at least two and at most all of the
/// remaining bytes.
pub proof fn lemma_esc_payload_bounds(s: Seq<u8>)
    requires
        esc_payload(s) is Some,
    ensures
        2 <= esc_payload(s).unwrap().1 <= s.len(),
{
}

/// Parses the remainder of a JSON string after its opening quote:
/// the unescaped content, and whatever follows the closing quote.
pub open spec fn parse_string_rest(s: Seq<u8>) -> Option<(Seq<u8>, Seq<u8>)>
    decreases s.len(),
{
    if s.len() == 0 {
        None
    } else if s[0] == QUOTE {
        Some((seq![], s.drop_first()))
    } else if s[0] == BACKSLASH {
        match esc_payload(s) {
            None => None,
            Some((p, k)) => if 2 <= k <= s.len() {
                match parse_string_rest(s.skip(k)) {
                    None => None,
                    Some((c, rest)) => Some((p + c, rest)),
                }
            } else {
                None
            },
        }
    } else if s[0] < 0x20 {
        None
    } else {
        match parse_string_rest(s.drop_first()) {
            None => None,
            Some((c, rest)) => Some((seq![s[0]] + c, rest)),
        }
    }
}

/// True when every byte is JSON whitespace.
pub open spec fn all_json_ws(s: Seq<u8>) -> bool {
    forall|i: int| 0 <= i < s.len() ==> is_json_ws(#[trigger] s[i])
}

/// Parses a body that consists of exactly one JSON string literal,
/// surrounded by optional whitespace, to its unescaped content.
pub open spec fn parse_json_string(s: Seq<u8>) -> Option<Seq<u8>>
    decreases s.len(),
{
    if s.len() == 0 {
        None
    } else if is_json_ws(s[0]) {
        parse_json_string(s.drop_first())
    } else if s[0] == QUOTE {
        match parse_string_rest(s.drop_first()) {
            None => None,
            Some((content, rest)) => if all_json_ws(rest) {
                Some(content)
            } else {
                None
            },
        }
    } else {
        None
    }
}

/// Prepends `p` to the content of a partial parse.
pub open spec fn opt_prepend(p: Seq<u8>, o: Option<(Seq<u8>, Seq<u8>)>) -> Option<
    (Seq<u8>, Seq<u8>),
> {
    match o {
        Some(cr) => Some((p + cr.0, cr.1)),
        None => None,
    }
}

/// Prepending twice is prepending the concatenation.
proof fn lemma_opt_prepend_assoc(a: Seq<u8>, b: Seq<u8>, o: Option<(Seq<u8>, Seq<u8>)>)
    ensures
        opt_prepend(a, opt_prepend(b, o)) == opt_prepend(a + b, o),
{
    match o {
        Some(cr) => {
            assert(a + (b + cr.0) =~= (a + b) + cr.0);
        },
        None => {},
    }
}

/// One token of string content — a literal byte or a whole escape
/// sequence — peels off the front of a partial parse.
proof fn lemma_rest_token(s: Seq<u8>, p: Seq<u8>, k: int)
    requires
        s.len() > 0,
        s[0] != QUOTE,
        (s[0] != BACKSLASH && s[0] >= 0x20 && p == seq![s[0]] && k == 1) || (s[0] == BACKSLASH
            && esc_payload(s) == Some((p, k))),
    ensures
        parse_string_rest(s) == opt_prepend(p, parse_string_rest(s.skip(k))),
{
    if s[0] == BACKSLASH {
        lemma_esc_payload_bounds(s);
    } else {
        assert(s.drop_first() =~= s.skip(1));
    }
}

/// The exec hex digit reader.
fn hex_val(b: u8) -> (r: Option<u32>)
    ensures
        r == hex_val_of(b),
{
    if 0x30 <= b && b <= 0x39 {
        Some((b - 0x30) as u32)
    } else if 0x41 <= b && b <= 0x46 {
        Some((10 + (b - 0x41)) as u32)
    } else if 0x61 <= b && b <= 0x66 {
        Some((10 + (b - 0x61)) as u32)
    } else {
        None
    }
}

/// Reads four hex digits.
fn hex4(b0: u8, b1: u8, b2: u8, b3: u8) -> (r: Option<u32>)
    ensures
        r == hex_quad(seq![b0, b1, b2, b3]),
{
    let v0 = hex_val(b0);
    let v1 = hex_val(b1);
    let v2 = hex_val(b2);
    let v3 = hex_val(b3);
    match (v0, v1, v2, v3) {
        (Some(v0), Some(v1), Some(v2), Some(v3)) => Some(v0 * 0x1000 + v1 * 0x100 + v2 * 0x10 + v3),
        _ => None,
    }
}

/// Appends the UTF-8 encoding of a scalar value.
fn push_encoded_scalar(out: &mut Vec<u8>, scalar: u32)
    requires
        is_scalar(scalar),
    ensures
        final(out)@ == old(out)@ + encode_scalar(scalar),
{
    if scalar <= 0x7f {
        out.push((scalar & 0x7f) as u8);
        proof {
            assert(out@ =~= old(out)@ + encode_scalar(scalar));
        }
    } else if scalar <= 0x7ff {
        out.push(0xc0 | (((scalar >> 6) & 0x1f) as u8));
        out.push(0x80 | ((scalar & 0x3f) as u8));
        proof {
            assert(out@ =~= old(out)@ + encode_scalar(scalar));
        }
    } else if scalar <= 0xffff {
        out.push(0xe0 | (((scalar >> 12) & 0x0f) as u8));
        out.push(0x80 | (((scalar >> 6) & 0x3f) as u8));
        out.push(0x80 | ((scalar & 0x3f) as u8));
        proof {
            assert(out@ =~= old(out)@ + encode_scalar(scalar));
        }
    } else {
        out.push(0xf0 | (((scalar >> 18) & 0x7) as u8));
        out.push(0x80 | (((scalar >> 12) & 0x3f) as u8));
        out.push(0x80 | (((scalar >> 6) & 0x3f) as u8));
        out.push(0x80 | ((scalar & 0x3f) as u8));
        proof {
            assert(out@ =~= old(out)@ + encode_scalar(scalar));
        }
    }
}

/// Appends the JSON escaping of `bytes` to `out`.
pub fn json_escape_append(out: &mut Vec<u8>, bytes: &[u8])
    ensures
        final(out)@ == old(out)@ + escape_json(bytes@),
{
    let mut i: usize = 0;
    proof {
        assert(bytes@.take(0) =~= Seq::<u8>::empty());
        assert(out@ + escape_json(bytes@.take(0)) =~= out@);
    }
    while i < bytes.len()
        invariant
            0 <= i <= bytes@.len(),
            out@ == old(out)@ + escape_json(bytes@.take(i as int)),
        decreases bytes@.len() - i,
    {
        let b = bytes[i];
        if b == QUOTE {
            out.push(BACKSLASH);
            out.push(QUOTE);
        } else if b == BACKSLASH {
            out.push(BACKSLASH);
            out.push(BACKSLASH);
        } else if b == 0x08 {
            out.push(BACKSLASH);
            out.push(0x62);
        } else if b == 0x0c {
            out.push(BACKSLASH);
            out.push(0x66);
        } else if b == 0x0a {
            out.push(BACKSLASH);
            out.push(0x6e);
        } else if b == 0x0d {
            out.push(BACKSLASH);
            out.push(0x72);
        } else if b == 0x09 {
            out.push(BACKSLASH);
            out.push(0x74);
        } else if b < 0x20 {
            out.push(BACKSLASH);
            out.push(0x75);
            out.push(0x30);
            out.push(0x30);
            out.push(0x30 + (b / 16));
            let low = b % 16;
            if low < 10 {
                out.push(0x30 + low);
            } else {
                out.push(0x57 + low);
            }
        } else {
            out.push(b);
        }
        proof {
            assert(bytes@.take(i + 1) =~= bytes@.take(i as int) + seq![bytes@[i as int]]);
            lemma_escape_concat(bytes@.take(i as int), seq![bytes@[i as int]]);
            assert(seq![b].drop_first() =~= Seq::<u8>::empty());
            assert(escape_json(seq![b]) =~= escape_byte(b) + escape_json(Seq::<u8>::empty()));
            assert(escape_json(seq![b]) =~= escape_byte(b));
            assert(out@ =~= old(out)@ + escape_json(bytes@.take(i + 1)));
        }
        i += 1;
    }
    proof {
        assert(bytes@.take(bytes@.len() as int) =~= bytes@);
    }
}

/// True when every byte from position `k0` on is JSON whitespace.
fn all_ws_from(body: &Vec<u8>, k0: usize) -> (r: bool)
    requires
        k0 <= body@.len(),
    ensures
        r == all_json_ws(body@.skip(k0 as int)),
{
    let n = body.len();
    let mut k: usize = k0;
    while k < n
        invariant
            k0 <= k <= n,
            n == body@.len(),
            forall|t: int| k0 <= t < k ==> is_json_ws(#[trigger] body@[t]),
        decreases n - k,
    {
        let w = body[k];
        if !(w == 0x20 || w == 0x09 || w == 0x0a || w == 0x0d) {
            proof {
                assert(!is_json_ws(body@.skip(k0 as int)[k - k0]));
            }
            return false;
        }
        k += 1;
    }
    proof {
        assert forall|t: int| 0 <= t < body@.skip(k0 as int).len() implies is_json_ws(
            #[trigger] body@.skip(k0 as int)[t],
        ) by {
            assert(body@.skip(k0 as int)[t] == body@[t + k0]);
        }
    }
    true
}

/// Consumes one escape sequence starting at the backslash at position `j`,
/// appending its unescaped bytes to `out`; returns the position just after
/// the sequence, or `None` when the escape is not well formed.
#[verifier::rlimit(60)]
fn parse_escape(body: &Vec<u8>, j: usize, out: &mut Vec<u8>) -> (r: Option<usize>)
    requires
        j < body@.len(),
        body@[j as int] == BACKSLASH,
    ensures
        ({
            let ep = esc_payload(body@.skip(j as int));
            match r {
                Some(j2) => {
                    &&& ep is Some
                    &&& j2 == j + ep.unwrap().1
                    &&& j < j2 <= body@.len()
                    &&& final(out)@ == old(out)@ + ep.unwrap().0
                },
                None => ep is None && final(out)@ == old(out)@,
            }
        }),
{
    let n = body.len();
    let ghost tail = body@.skip(j as int);
    if n - j < 2 {
        proof {
            assert(tail.len() < 2);
        }
        return None;
    }
    let e = body[j + 1];
    proof {
        assert(tail[1] == e);
    }
    if e == QUOTE || e == BACKSLASH || e == 0x2f {
        out.push(e);
        proof {
            assert(esc_payload(tail) == Some((seq![e], 2int)));
        }
        Some(j + 2)
    } else if e == 0x62 || e == 0x66 || e == 0x6e || e == 0x72 || e == 0x74 {
        let decoded: u8 = if e == 0x62 {
            0x08
        } else if e == 0x66 {
            0x0c
        } else if e == 0x6e {
            0x0a
        } else if e == 0x72 {
            0x0d
        } else {
            0x09
        };
        out.push(decoded);
        proof {
            assert(esc_payload(tail) == Some((seq![decoded], 2int)));
        }
        Some(j + 2)
    } else if e == 0x75 {
        if n - j < 6 {
            proof {
                assert(tail.len() < 6);
            }
            return None;
        }
        proof {
            assert(tail.subrange(2, 6) =~= seq![
                body@[j + 2],
                body@[j + 3],
                body@[j + 4],
                body@[j + 5],
            ]);
        }
        let u = match hex4(body[j + 2], body[j + 3], body[j + 4], body[j + 5]) {
            Some(u) => u,
            None => {
                return None;
            },
        };
        if 0xd800 <= u && u < 0xdc00 {
            // high surrogate: a low surrogate escape must follow
            if n - j < 12 {
                proof {
                    assert(tail.len() < 12);
                }
                return None;
            }
            proof {
                assert(tail[6] == body@[j + 6] && tail[7] == body@[j + 7]);
                assert(tail.subrange(8, 12) =~= seq![
                    body@[j + 8],
                    body@[j + 9],
                    body@[j + 10],
                    body@[j + 11],
                ]);
            }
            if body[j + 6] != BACKSLASH || body[j + 7] != 0x75 {
                return None;
            }
            let l = match hex4(body[j + 8], body[j + 9], body[j + 10], body[j + 11]) {
                Some(l) => l,
                None => {
                    return None;
                },
            };
            if !(0xdc00 <= l && l < 0xe000) {
                return None;
            }
            let scalar: u32 = 0x10000 + (u - 0xd800) * 0x400 + (l - 0xdc00);
            proof {
                assert(scalar == surrogate_scalar(u, l));
                assert(is_scalar(scalar));
            }
            push_encoded_scalar(out, scalar);
            proof {
                assert(esc_payload(tail) == Some((encode_scalar(scalar), 12int)));
            }
            Some(j + 12)
        } else if 0xdc00 <= u && u < 0xe000 {
            None
        } else {
            proof {
                assert(is_scalar(u));
            }
            push_encoded_scalar(out, u);
            proof {
                assert(esc_payload(tail) == Some((encode_scalar(u), 6int)));
            }
            Some(j + 6)
        }
    } else {
        None
    }
}

/// Parses a response body that must be exactly one JSON string literal,
/// returning its unescaped content bytes.
#[verifier::rlimit(60)]
pub fn json_parse_string(body: &Vec<u8>) -> (r: Option<Vec<u8>>)
    ensures
        r is Some <==> parse_json_string(body@) is Some,
        r is Some ==> r.unwrap()@ == parse_json_string(body@).unwrap(),
{
    let n = body.len();
    let mut i: usize = 0;
    proof {
        assert(body@.skip(0) =~= body@);
    }
    while i < n && (body[i] == 0x20 || body[i] == 0x09 || body[i] == 0x0a || body[i] == 0x0d)
        invariant
            0 <= i <= n,
            n == body@.len(),
            parse_json_string(body@) == parse_json_string(body@.skip(i as int)),
        decreases n - i,
    {
        proof {
            assert(body@.skip(i as int).drop_first() =~= body@.skip(i + 1));
        }
        i += 1;
    }
    if i == n {
        return None;
    }
    if body[i] != QUOTE {
        return None;
    }
    let ghost start = i + 1;
    proof {
        assert(body@.skip(i as int).drop_first() =~= body@.skip(start as int));
    }
    let mut out: Vec<u8> = Vec::new();
    let mut j: usize = i + 1;
    proof {
        match parse_string_rest(body@.skip(start as int)) {
            Some(cr) => {
                assert(out@ + cr.0 =~= cr.0);
            },
            None => {},
        }
    }
    loop
        invariant
            start <= j <= n,
            n == body@.len(),
            parse_json_string(body@) == (match parse_string_rest(body@.skip(start as int)) {
                None => None::<Seq<u8>>,
                Some(cr) => if all_json_ws(cr.1) {
                    Some(cr.0)
                } else {
                    None
                },
            }),
            parse_string_rest(body@.skip(start as int)) == opt_prepend(
                out@,
                parse_string_rest(body@.skip(j as int)),
            ),
        decreases n - j,
    {
        if j == n {
            return None;
        }
        let b = body[j];
        let ghost tail = body@.skip(j as int);
        proof {
            assert(tail[0] == b);
        }
        if b == QUOTE {
            // end of the string: the rest of the body may hold only whitespace
            proof {
                assert(tail.drop_first() =~= body@.skip(j + 1));
            }
            if all_ws_from(body, j + 1) {
                return Some(out);
            } else {
                return None;
            }
        } else if b == BACKSLASH {
            let ghost prev = out@;
            match parse_escape(body, j, &mut out) {
                Some(j2) => {
                    proof {
                        let ep = esc_payload(tail);
                        lemma_rest_token(tail, ep.unwrap().0, ep.unwrap().1);
                        assert(tail.skip(ep.unwrap().1) =~= body@.skip(j2 as int));
                        lemma_opt_prepend_assoc(
                            prev,
                            ep.unwrap().0,
                            parse_string_rest(body@.skip(j2 as int)),
                        );
                    }
                    j = j2;
                },
                None => {
                    proof {
                        assert(parse_string_rest(tail) is None);
                    }
                    return None;
                },
            }
        } else if b < 0x20 {
            proof {
                assert(parse_string_rest(tail) is None);
            }
            return None;
        } else {
            let ghost prev = out@;
            out.push(b);
            proof {
                lemma_rest_token(tail, seq![b], 1);
                assert(tail.skip(1) =~= body@.skip(j + 1));
                lemma_opt_prepend_assoc(prev, seq![b], parse_string_rest(body@.skip(j + 1)));
                assert(out@ =~= prev + seq![b]);
            }
            j += 1;
        }
    }
}

/// A hex digit written by `hex_char_of` reads back to its value.
proof fn lemma_hex_char_val(v: int)
    requires
        0 <= v < 16,
    ensures
        hex_val_of(hex_char_of(v)) == Some(v as u32),
{
}

/// One escaped byte at the head of string content reads back to itself.
#[verifier::rlimit(60)]
proof fn lemma_parse_escaped_byte(b: u8, tail: Seq<u8>)
    requires
        tail.len() > 0,
    ensures
        parse_string_rest(escape_byte(b) + tail) == opt_prepend(seq![b], parse_string_rest(tail)),
{
    let s = escape_byte(b) + tail;
    if b == QUOTE || b == BACKSLASH {
        assert(s[0] == BACKSLASH && s[1] == b);
        assert(esc_payload(s) == Some((seq![b], 2int)));
        lemma_rest_token(s, seq![b], 2);
        assert(s.skip(2) =~= tail);
    } else if b == 0x08 || b == 0x0c || b == 0x0a || b == 0x0d || b == 0x09 {
        assert(s[0] == BACKSLASH);
        assert(esc_payload(s) == Some((seq![b], 2int)));
        lemma_rest_token(s, seq![b], 2);
        assert(s.skip(2) =~= tail);
    } else if b < 0x20 {
        assert(s[0] == BACKSLASH && s[1] == 0x75);
        assert(s.len() >= 7);
        let hi = b as int / 16;
        let lo = b as int % 16;
        assert(s.subrange(2, 6) =~= seq![0x30u8, 0x30u8, hex_char_of(hi), hex_char_of(lo)]);
        lemma_hex_char_val(hi);
        lemma_hex_char_val(lo);
        assert(hex_quad(s.subrange(2, 6)) == Some(((hi * 16 + lo) as u32)));
        assert((b as int / 16) * 16 + b as int % 16 == b as int) by (nonlinear_arith);
        assert(hi * 16 + lo == b);
        let u = b as u32;
        assert(!(0xd800 <= u < 0xdc00) && !(0xdc00 <= u < 0xe000));
        assert(has_width_1_encoding(u));
        assert(leading_byte_width_1(u) == b) by (bit_vector)
            requires
                u == b as u32 && b < 0x20,
        ;
        assert(encode_scalar(u) =~= seq![b]);
        assert(esc_payload(s) == Some((seq![b], 6int)));
        lemma_rest_token(s, seq![b], 6);
        assert(s.skip(6) =~= tail);
    } else {
        assert(s[0] == b && b != QUOTE && b != BACKSLASH && b >= 0x20);
        lemma_rest_token(s, seq![b], 1);
        assert(s.skip(1) =~= tail);
    }
}

/// Escaped content followed by a closing quote reads back intact.
proof fn lemma_parse_escaped(b: Seq<u8>, rest: Seq<u8>)
    ensures
        parse_string_rest(escape_json(b) + (seq![QUOTE] + rest)) == Some((b, rest)),
    decreases b.len(),
{
    if b.len() == 0 {
        let s = escape_json(b) + (seq![QUOTE] + rest);
        assert(s =~= seq![QUOTE] + rest);
        assert(s[0] == QUOTE);
        assert(s.drop_first() =~= rest);
    } else {
        lemma_parse_escaped(b.drop_first(), rest);
        let tail = escape_json(b.drop_first()) + (seq![QUOTE] + rest);
        assert(tail.len() > 0) by {
            assert(tail.len() >= (seq![QUOTE] + rest).len());
        }
        lemma_parse_escaped_byte(b[0], tail);
        assert(escape_json(b) + (seq![QUOTE] + rest) =~= escape_byte(b[0]) + tail);
        assert(seq![b[0]] + b.drop_first() =~= b);
    }
}

/// The response parser inverts the request escaping: any content the
/// escaper writes between quotes is read back byte for byte.
pub proof fn lemma_escape_parse_round_trip(b: Seq<u8>)
    ensures
        parse_json_string(seq![QUOTE] + escape_json(b) + seq![QUOTE]) == Some(b),
{
    let s = seq![QUOTE] + escape_json(b) + seq![QUOTE];
    assert(s[0] == QUOTE);
    assert(!is_json_ws(QUOTE));
    lemma_parse_escaped(b, Seq::<u8>::empty());
    assert(s.drop_first() =~= escape_json(b) + (seq![QUOTE] + Seq::<u8>::empty()));
    assert(all_json_ws(Seq::<u8>::empty()));
}

} // verus!

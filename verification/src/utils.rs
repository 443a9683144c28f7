//! Textual encoding of cryptographic material.
//!
//! Keys, identities and envelopes are printed and parsed in the standard
//! base64 alphabet with `=` padding.  Encoding and decoding are written and
//! verified here; decoding an encoded value always yields the value back.

use vstd::prelude::*;
use vstd::string::StringSliceAdditionalSpecFns;

verus! {

/// The base64 alphabet: the ASCII code of a 6-bit value.
pub open spec fn b64_char(v: u8) -> u8 {
    if v < 26 {
        (v + 65) as u8  // 'A'..='Z'
    } else if v < 52 {
        (v + 71) as u8  // 'a'..='z'
    } else if v < 62 {
        (v - 4) as u8  // '0'..='9'
    } else if v == 62 {
        43u8  // '+'
    } else {
        47u8  // '/'
    }
}

/// The inverse alphabet: the 6-bit value of an ASCII code, if it has one.
pub open spec fn b64_val(c: u8) -> Option<u8> {
    if 65 <= c && c <= 90 {
        Some((c - 65) as u8)
    } else if 97 <= c && c <= 122 {
        Some((c - 71) as u8)
    } else if 48 <= c && c <= 57 {
        Some((c + 4) as u8)
    } else if c == 43 {
        Some(62u8)
    } else if c == 47 {
        Some(63u8)
    } else {
        None
    }
}

/// The four alphabet codes for a full group of three bytes.
pub open spec fn enc3(a: u8, b: u8, c: u8) -> Seq<u8> {
    seq![
        b64_char(a >> 2),
        b64_char(((a & 3) << 4) | (b >> 4)),
        b64_char(((b & 15) << 2) | (c >> 6)),
        b64_char(c & 63),
    ]
}

/// The final group for two leftover bytes: three codes and one `=`.
pub open spec fn enc2(a: u8, b: u8) -> Seq<u8> {
    seq![b64_char(a >> 2), b64_char(((a & 3) << 4) | (b >> 4)), b64_char((b & 15) << 2), 61u8]
}

/// The final group for one leftover byte: two codes and two `=`.
pub open spec fn enc1(a: u8) -> Seq<u8> {
    seq![b64_char(a >> 2), b64_char((a & 3) << 4), 61u8, 61u8]
}

/// The base64 text (as ASCII codes) of a byte sequence.
pub open spec fn b64_encode(s: Seq<u8>) -> Seq<u8>
    decreases s.len(),
{
    if s.len() == 0 {
        Seq::empty()
    } else if s.len() == 1 {
        enc1(s[0])
    } else if s.len() == 2 {
        enc2(s[0], s[1])
    } else {
        enc3(s[0], s[1], s[2]) + b64_encode(s.skip(3))
    }
}

/// The byte rebuilt from the first two codes of a group.
pub open spec fn dec0(v0: u8, v1: u8) -> u8 {
    (v0 << 2) | (v1 >> 4)
}

/// The byte rebuilt from the second and third codes of a group.
pub open spec fn dec1(v1: u8, v2: u8) -> u8 {
    ((v1 & 15) << 4) | (v2 >> 2)
}

/// The byte rebuilt from the last two codes of a group.
pub open spec fn dec2(v2: u8, v3: u8) -> u8 {
    ((v2 & 3) << 6) | v3
}

/// The bytes that base64 text (as ASCII codes) decodes to, if it is
/// well-formed: groups of four codes, with `=` padding only at the end.
pub open spec fn b64_decode(s: Seq<u8>) -> Option<Seq<u8>>
    decreases s.len(),
{
    if s.len() == 0 {
        Some(Seq::empty())
    } else if s.len() < 4 || s.len() % 4 != 0 {
        None
    } else {
        match (b64_val(s[0]), b64_val(s[1])) {
            (Some(v0), Some(v1)) => if s.len() == 4 && s[3] == 61 {
                if s[2] == 61 {
                    Some(seq![dec0(v0, v1)])
                } else {
                    match b64_val(s[2]) {
                        Some(v2) => Some(seq![dec0(v0, v1), dec1(v1, v2)]),
                        None => None,
                    }
                }
            } else {
                match (b64_val(s[2]), b64_val(s[3])) {
                    (Some(v2), Some(v3)) => match b64_decode(s.skip(4)) {
                        Some(rest) => Some(seq![dec0(v0, v1), dec1(v1, v2), dec2(v2, v3)] + rest),
                        None => None,
                    },
                    _ => None,
                }
            },
            _ => None,
        }
    }
}

/// The textual form of a byte sequence: its base64 codes read as characters.
pub open spec fn text_of(s: Seq<u8>) -> Seq<char> {
    b64_encode(s).map(|i: int, b: u8| b as char)
}

proof fn lemma_enc_bounds(a: u8, b: u8, c: u8)
    ensures
        a >> 2 < 64,
        ((a & 3) << 4) | (b >> 4) < 64,
        ((b & 15) << 2) | (c >> 6) < 64,
        c & 63 < 64,
        (a & 3) << 4 < 64,
        (b & 15) << 2 < 64,
{
    assert(a >> 2 < 64) by (bit_vector);
    assert(((a & 3) << 4) | (b >> 4) < 64) by (bit_vector);
    assert(((b & 15) << 2) | (c >> 6) < 64) by (bit_vector);
    assert(c & 63 < 64) by (bit_vector);
    assert((a & 3) << 4 < 64) by (bit_vector);
    assert((b & 15) << 2 < 64) by (bit_vector);
}

proof fn lemma_group_round_trip(a: u8, b: u8, c: u8)
    ensures
        dec0(a >> 2, ((a & 3) << 4) | (b >> 4)) == a,
        dec1(((a & 3) << 4) | (b >> 4), ((b & 15) << 2) | (c >> 6)) == b,
        dec2(((b & 15) << 2) | (c >> 6), c & 63) == c,
{
    assert(((a >> 2) << 2) | ((((a & 3) << 4) | (b >> 4)) >> 4) == a) by (bit_vector);
    assert((((((a & 3) << 4) | (b >> 4)) & 15) << 4) | (((((b & 15) << 2) | (c >> 6))) >> 2) == b)
        by (bit_vector);
    assert((((((b & 15) << 2) | (c >> 6)) & 3) << 6) | (c & 63) == c) by (bit_vector);
}

proof fn lemma_b64_val_char(v: u8)
    requires
        v < 64,
    ensures
        b64_val(b64_char(v)) == Some(v),
        b64_char(v) != 61,
        b64_char(v) < 128,
{
}

/// Appending to a sequence of full groups encodes each part on its own.
proof fn lemma_b64_encode_append(s: Seq<u8>, t: Seq<u8>)
    requires
        s.len() % 3 == 0,
    ensures
        b64_encode(s + t) == b64_encode(s) + b64_encode(t),
    decreases s.len(),
{
    if s.len() == 0 {
        assert(s + t =~= t);
        assert(b64_encode(s) + b64_encode(t) =~= b64_encode(t));
    } else {
        let st = s + t;
        assert(st.skip(3) =~= s.skip(3) + t);
        lemma_b64_encode_append(s.skip(3), t);
        assert(b64_encode(s + t) =~= b64_encode(s) + b64_encode(t));
    }
}

/// Encoded text is made of full four-code groups.
proof fn lemma_b64_encode_len(s: Seq<u8>)
    ensures
        b64_encode(s).len() % 4 == 0,
        s.len() > 0 ==> b64_encode(s).len() >= 4,
        s.len() == 0 ==> b64_encode(s).len() == 0,
    decreases s.len(),
{
    if s.len() > 2 {
        lemma_b64_encode_len(s.skip(3));
    }
}

/// Encoded text is ASCII.
proof fn lemma_b64_encode_ascii(s: Seq<u8>)
    ensures
        forall|i: int| 0 <= i < b64_encode(s).len() ==> b64_encode(s)[i] < 128,
    decreases s.len(),
{
    if s.len() == 1 {
        lemma_enc_bounds(s[0], 0, 0);
        lemma_b64_val_char(s[0] >> 2);
        lemma_b64_val_char((s[0] & 3) << 4);
    } else if s.len() == 2 {
        lemma_enc_bounds(s[0], s[1], 0);
        lemma_b64_val_char(s[0] >> 2);
        lemma_b64_val_char(((s[0] & 3) << 4) | (s[1] >> 4));
        lemma_b64_val_char((s[1] & 15) << 2);
    } else if s.len() > 2 {
        lemma_enc_bounds(s[0], s[1], s[2]);
        lemma_b64_val_char(s[0] >> 2);
        lemma_b64_val_char(((s[0] & 3) << 4) | (s[1] >> 4));
        lemma_b64_val_char(((s[1] & 15) << 2) | (s[2] >> 6));
        lemma_b64_val_char(s[2] & 63);
        lemma_b64_encode_ascii(s.skip(3));
        let e = b64_encode(s);
        let tail = b64_encode(s.skip(3));
        assert(forall|i: int| 4 <= i < e.len() ==> e[i] == tail[i - 4]);
    }
}

/// Law: decoding an encoding always gives the original bytes back.
pub proof fn lemma_b64_round_trip(s: Seq<u8>)
    ensures
        b64_decode(b64_encode(s)) == Some(s),
    decreases s.len(),
{
    let e = b64_encode(s);
    if s.len() == 0 {
        assert(b64_decode(e) == Some(Seq::<u8>::empty()));
        assert(Seq::<u8>::empty() =~= s);
    } else if s.len() == 1 {
        let a = s[0];
        lemma_enc_bounds(a, 0, 0);
        lemma_b64_val_char(a >> 2);
        lemma_b64_val_char((a & 3) << 4);
        assert(((a >> 2) << 2) | (((a & 3) << 4) >> 4) == a) by (bit_vector);
        assert(b64_decode(e)->0 =~= s);
    } else if s.len() == 2 {
        let a = s[0];
        let b = s[1];
        lemma_enc_bounds(a, b, 0);
        lemma_b64_val_char(a >> 2);
        lemma_b64_val_char(((a & 3) << 4) | (b >> 4));
        lemma_b64_val_char((b & 15) << 2);
        assert(((a >> 2) << 2) | ((((a & 3) << 4) | (b >> 4)) >> 4) == a) by (bit_vector);
        assert((((((a & 3) << 4) | (b >> 4)) & 15) << 4) | (((b & 15) << 2) >> 2) == b)
            by (bit_vector);
        assert(b64_decode(e)->0 =~= s);
    } else {
        let a = s[0];
        let b = s[1];
        let c = s[2];
        lemma_enc_bounds(a, b, c);
        lemma_b64_val_char(a >> 2);
        lemma_b64_val_char(((a & 3) << 4) | (b >> 4));
        lemma_b64_val_char(((b & 15) << 2) | (c >> 6));
        lemma_b64_val_char(c & 63);
        lemma_group_round_trip(a, b, c);
        lemma_b64_round_trip(s.skip(3));
        lemma_b64_encode_len(s.skip(3));
        assert(e.skip(4) =~= b64_encode(s.skip(3)));
        if s.len() == 3 {
            assert(b64_decode(e.skip(4)) == Some(Seq::<u8>::empty()));
            assert(b64_decode(e)->0 =~= s);
        } else {
            assert(seq![a, b, c] + s.skip(3) =~= s);
            assert(b64_decode(e)->0 =~= s);
        }
    }
}

fn enc_char(v: u8) -> (r: u8)
    requires
        v < 64,
    ensures
        r == b64_char(v),
{
    if v < 26 {
        v + 65
    } else if v < 52 {
        v + 71
    } else if v < 62 {
        v - 4
    } else if v == 62 {
        43
    } else {
        47
    }
}

fn dec_char(c: u8) -> (r: Option<u8>)
    ensures
        r == b64_val(c),
{
    if 65 <= c && c <= 90 {
        Some(c - 65)
    } else if 97 <= c && c <= 122 {
        Some(c - 71)
    } else if 48 <= c && c <= 57 {
        Some(c + 4)
    } else if c == 43 {
        Some(62)
    } else if c == 47 {
        Some(63)
    } else {
        None
    }
}

/// Encodes bytes as base64 ASCII codes.
pub fn b64_encode_bytes(input: &Vec<u8>) -> (r: Vec<u8>)
    ensures
        r@ == b64_encode(input@),
{
    let mut out: Vec<u8> = Vec::new();
    let mut i: usize = 0;
    while input.len() - i >= 3
        invariant
            i <= input@.len(),
            i % 3 == 0,
            out@ == b64_encode(input@.take(i as int)),
        decreases input@.len() - i,
    {
        let a = input[i];
        let b = input[i + 1];
        let c = input[i + 2];
        proof {
            lemma_enc_bounds(a, b, c);
        }
        out.push(enc_char(a >> 2));
        out.push(enc_char(((a & 3) << 4) | (b >> 4)));
        out.push(enc_char(((b & 15) << 2) | (c >> 6)));
        out.push(enc_char(c & 63));
        proof {
            let prefix = input@.take(i as int);
            let group = input@.subrange(i as int, i as int + 3);
            lemma_b64_encode_append(prefix, group);
            assert(input@.take(i as int + 3) =~= prefix + group);
            assert(group.skip(3) =~= Seq::<u8>::empty());
            assert(group[0] == a && group[1] == b && group[2] == c);
            assert(b64_encode(group.skip(3)) =~= Seq::<u8>::empty());
            assert(b64_encode(group) =~= enc3(a, b, c));
            assert(out@ =~= b64_encode(input@.take(i as int + 3)));
        }
        i = i + 3;
    }
    if input.len() - i == 1 {
        let a = input[i];
        proof {
            lemma_enc_bounds(a, 0, 0);
        }
        out.push(enc_char(a >> 2));
        out.push(enc_char((a & 3) << 4));
        out.push(61);
        out.push(61);
        proof {
            let prefix = input@.take(i as int);
            let group = input@.subrange(i as int, i as int + 1);
            lemma_b64_encode_append(prefix, group);
            assert(input@ =~= prefix + group);
            assert(b64_encode(group) =~= enc1(a));
            assert(out@ =~= b64_encode(input@));
        }
    } else if input.len() - i == 2 {
        let a = input[i];
        let b = input[i + 1];
        proof {
            lemma_enc_bounds(a, b, 0);
        }
        out.push(enc_char(a >> 2));
        out.push(enc_char(((a & 3) << 4) | (b >> 4)));
        out.push(enc_char((b & 15) << 2));
        out.push(61);
        proof {
            let prefix = input@.take(i as int);
            let group = input@.subrange(i as int, i as int + 2);
            lemma_b64_encode_append(prefix, group);
            assert(input@ =~= prefix + group);
            assert(b64_encode(group) =~= enc2(a, b));
            assert(out@ =~= b64_encode(input@));
        }
    } else {
        proof {
            assert(input@.take(i as int) =~= input@);
        }
    }
    out
}

/// Decodes base64 text given as ASCII codes; yields nothing if it is malformed.
pub fn b64_decode_bytes(input: &[u8]) -> (r: Option<Vec<u8>>)
    ensures
        r is Some <==> b64_decode(input@) is Some,
        r is Some ==> r->0@ == b64_decode(input@)->0,
{
    let n = input.len();
    if n == 0 {
        return Some(Vec::new());
    }
    if n % 4 != 0 {
        return None;
    }
    let mut out: Vec<u8> = Vec::new();
    let mut i: usize = 0;
    proof {
        assert(input@.skip(0) =~= input@);
    }
    while n - i > 4
        invariant
            n == input@.len(),
            n % 4 == 0,
            n > 0,
            i % 4 == 0,
            i + 4 <= n,
            b64_decode(input@) is Some <==> b64_decode(input@.skip(i as int)) is Some,
            b64_decode(input@.skip(i as int)) is Some ==> b64_decode(input@) == Some(
                out@ + b64_decode(input@.skip(i as int))->0,
            ),
        decreases n - i,
    {
        let ghost rest = input@.skip(i as int);
        let ghost out0 = out@;
        proof {
            assert(rest.len() == n - i);
            assert(rest.len() % 4 == 0) by (nonlinear_arith)
                requires
                    rest.len() == n - i,
                    n % 4 == 0,
                    i % 4 == 0,
                    i <= n,
            ;
            assert(rest[0] == input@[i as int]);
            assert(rest[1] == input@[i as int + 1]);
            assert(rest[2] == input@[i as int + 2]);
            assert(rest[3] == input@[i as int + 3]);
            assert(rest.skip(4) =~= input@.skip(i as int + 4));
        }
        let v0 = match dec_char(input[i]) {
            Some(v) => v,
            None => {
                proof {
                    assert(b64_decode(rest) is None);
                }
                return None;
            },
        };
        let v1 = match dec_char(input[i + 1]) {
            Some(v) => v,
            None => {
                proof {
                    assert(b64_decode(rest) is None);
                }
                return None;
            },
        };
        let v2 = match dec_char(input[i + 2]) {
            Some(v) => v,
            None => {
                proof {
                    assert(b64_decode(rest) is None);
                }
                return None;
            },
        };
        let v3 = match dec_char(input[i + 3]) {
            Some(v) => v,
            None => {
                proof {
                    assert(b64_decode(rest) is None);
                }
                return None;
            },
        };
        out.push((v0 << 2) | (v1 >> 4));
        out.push(((v1 & 15) << 4) | (v2 >> 2));
        out.push(((v2 & 3) << 6) | v3);
        proof {
            let rest4 = input@.skip(i as int + 4);
            assert(b64_decode(rest) == (match b64_decode(rest4) {
                Some(r2) => Some(seq![dec0(v0, v1), dec1(v1, v2), dec2(v2, v3)] + r2),
                None => None,
            }));
            if b64_decode(rest4) is Some {
                assert(out@ + b64_decode(rest4)->0 =~= out0 + b64_decode(rest)->0);
            }
        }
        i = i + 4;
    }
    // the last group: i + 4 == n
    let ghost rest = input@.skip(i as int);
    let ghost out0 = out@;
    proof {
        assert(rest.len() == 4);
        assert(rest[0] == input@[i as int]);
        assert(rest[1] == input@[i as int + 1]);
        assert(rest[2] == input@[i as int + 2]);
        assert(rest[3] == input@[i as int + 3]);
    }
    let v0 = match dec_char(input[i]) {
        Some(v) => v,
        None => {
            proof {
                assert(b64_decode(rest) is None);
            }
            return None;
        },
    };
    let v1 = match dec_char(input[i + 1]) {
        Some(v) => v,
        None => {
            proof {
                assert(b64_decode(rest) is None);
            }
            return None;
        },
    };
    if input[i + 3] == 61 {
        if input[i + 2] == 61 {
            out.push((v0 << 2) | (v1 >> 4));
            proof {
                assert(b64_decode(rest) == Some(seq![dec0(v0, v1)]));
                assert(out@ =~= out0 + b64_decode(rest)->0);
            }
            Some(out)
        } else {
            let v2 = match dec_char(input[i + 2]) {
                Some(v) => v,
                None => {
                    proof {
                        assert(b64_decode(rest) is None);
                    }
                    return None;
                },
            };
            out.push((v0 << 2) | (v1 >> 4));
            out.push(((v1 & 15) << 4) | (v2 >> 2));
            proof {
                assert(b64_decode(rest) == Some(seq![dec0(v0, v1), dec1(v1, v2)]));
                assert(out@ =~= out0 + b64_decode(rest)->0);
            }
            Some(out)
        }
    } else {
        let v2 = match dec_char(input[i + 2]) {
            Some(v) => v,
            None => {
                proof {
                    assert(b64_decode(rest) is None);
                }
                return None;
            },
        };
        let v3 = match dec_char(input[i + 3]) {
            Some(v) => v,
            None => {
                proof {
                    assert(b64_decode(rest) is None);
                }
                return None;
            },
        };
        out.push((v0 << 2) | (v1 >> 4));
        out.push(((v1 & 15) << 4) | (v2 >> 2));
        out.push(((v2 & 3) << 6) | v3);
        proof {
            assert(rest.skip(4) =~= Seq::<u8>::empty());
            assert(b64_decode(rest.skip(4)) == Some(Seq::<u8>::empty()));
            assert(b64_decode(rest) is Some);
            assert(b64_decode(rest)->0 =~= seq![dec0(v0, v1), dec1(v1, v2), dec2(v2, v3)]);
            assert(out@ =~= out0 + b64_decode(rest)->0);
        }
        Some(out)
    }
}

/// Relies on `String::from_utf8`: ASCII bytes become the string whose
/// characters are exactly those bytes.
#[verifier::external_body]
pub(crate) fn ascii_to_string(bytes: &Vec<u8>) -> (r: String)
    requires
        forall|i: int| 0 <= i < bytes@.len() ==> bytes@[i] < 128,
    ensures
        r@.len() == bytes@.len(),
        forall|i: int| 0 <= i < bytes@.len() ==> r@[i] == bytes@[i] as char,
{
    String::from_utf8(bytes.clone()).unwrap()
}

/// Builds the textual form of a byte sequence.
pub fn to_text_string(bytes: &Vec<u8>) -> (r: String)
    ensures
        r@ == text_of(bytes@),
        vstd::utf8::is_ascii_chars(r@),
{
    let encoded = b64_encode_bytes(bytes);
    proof {
        lemma_b64_encode_ascii(bytes@);
    }
    let s = ascii_to_string(&encoded);
    proof {
        assert(s@ =~= text_of(bytes@));
    }
    s
}

/// Parses the textual form back into bytes; yields nothing if it is malformed.
pub fn from_text_str(text: &str) -> (r: Option<Vec<u8>>)
    ensures
        r is Some <==> b64_decode(text.spec_bytes()) is Some,
        r is Some ==> r->0@ == b64_decode(text.spec_bytes())->0,
{
    b64_decode_bytes(text.as_bytes())
}

/// Law: the textual form of any byte sequence, read back as ASCII codes,
/// decodes to exactly that byte sequence.
pub proof fn lemma_text_round_trip(s: Seq<u8>)
    ensures
        b64_decode(vstd::utf8::encode_utf8(text_of(s))) == Some(s),
{
    lemma_b64_encode_ascii(s);
    let t = text_of(s);
    assert(vstd::utf8::is_ascii_chars(t));
    vstd::utf8::is_ascii_chars_encode_utf8(t);
    assert(vstd::utf8::encode_utf8(t) =~= b64_encode(s));
    lemma_b64_round_trip(s);
}

} // verus!

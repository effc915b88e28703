//! Base64 with the standard alphabet and `=` padding, as the `data` fields
//! of rxpk and txpk bodies carry it on the wire. Both directions are written
//! against exact specifications; decoding accepts only canonical text.

use vstd::prelude::*;

verus! {

/// The alphabet: the character for a 6-bit group.
pub open spec fn b64_char(v: int) -> u8 {
    if v < 26 {
        (65 + v) as u8  // 'A'..'Z'
    } else if v < 52 {
        (71 + v) as u8  // 'a'..'z'
    } else if v < 62 {
        (v - 4) as u8  // '0'..'9'
    } else if v == 62 {
        43u8  // '+'
    } else {
        47u8  // '/'
    }
}

/// The 6-bit group of an alphabet character; 64 marks a byte outside the
/// alphabet.
pub open spec fn b64_val(c: u8) -> int {
    if 65 <= c <= 90 {
        c - 65
    } else if 97 <= c <= 122 {
        c - 71
    } else if 48 <= c <= 57 {
        c + 4
    } else if c == 43 {
        62
    } else if c == 47 {
        63
    } else {
        64
    }
}

/// The canonical encoding of a byte sequence.
pub open spec fn b64_encode(s: Seq<u8>) -> Seq<u8>
    decreases s.len(),
{
    if s.len() == 0 {
        Seq::empty()
    } else if s.len() == 1 {
        seq![
            b64_char(s[0] as int / 4),
            b64_char((s[0] as int % 4) * 16),
            61u8,
            61u8,
        ]
    } else if s.len() == 2 {
        seq![
            b64_char(s[0] as int / 4),
            b64_char((s[0] as int % 4) * 16 + s[1] as int / 16),
            b64_char((s[1] as int % 16) * 4),
            61u8,
        ]
    } else {
        seq![
            b64_char(s[0] as int / 4),
            b64_char((s[0] as int % 4) * 16 + s[1] as int / 16),
            b64_char((s[1] as int % 16) * 4 + s[2] as int / 64),
            b64_char(s[2] as int % 64),
        ] + b64_encode(s.skip(3))
    }
}

/// Encodes a byte slice.
pub fn encode(data: &[u8]) -> (r: Vec<u8>)
    ensures
        r@ == b64_encode(data@),
{
    let mut out: Vec<u8> = Vec::new();
    let n = data.len();
    let mut i: usize = 0;
    proof {
        assert(data@.skip(0) =~= data@);
    }
    while n - i >= 3
        invariant
            i <= n,
            n == data@.len(),
            b64_encode(data@) == out@ + b64_encode(data@.skip(i as int)),
        decreases n - i,
    {
        let ghost rest = data@.skip(i as int);
        let b0 = data[i];
        let b1 = data[i + 1];
        let b2 = data[i + 2];
        out.push(enc_char(b0 / 4));
        out.push(enc_char((b0 % 4) * 16 + b1 / 16));
        out.push(enc_char((b1 % 16) * 4 + b2 / 64));
        out.push(enc_char(b2 % 64));
        i += 3;
        proof {
            assert(rest[0] == b0 && rest[1] == b1 && rest[2] == b2);
            assert(rest.skip(3) =~= data@.skip(i as int));
            assert(b64_encode(data@) =~= out@ + b64_encode(data@.skip(i as int)));
        }
    }
    let ghost rest = data@.skip(i as int);
    if n - i == 1 {
        let b0 = data[i];
        out.push(enc_char(b0 / 4));
        out.push(enc_char((b0 % 4) * 16));
        out.push(61);
        out.push(61);
        proof {
            assert(rest[0] == b0);
            assert(out@ =~= b64_encode(data@));
        }
    } else if n - i == 2 {
        let b0 = data[i];
        let b1 = data[i + 1];
        out.push(enc_char(b0 / 4));
        out.push(enc_char((b0 % 4) * 16 + b1 / 16));
        out.push(enc_char((b1 % 16) * 4));
        out.push(61);
        proof {
            assert(rest[0] == b0 && rest[1] == b1);
            assert(out@ =~= b64_encode(data@));
        }
    } else {
        proof {
            assert(rest.len() == 0);
            assert(b64_encode(rest) =~= Seq::<u8>::empty());
            assert(out@ =~= b64_encode(data@));
        }
    }
    out
}

/// The alphabet character for a 6-bit group.
fn enc_char(v: u8) -> (r: u8)
    requires
        v < 64,
    ensures
        r == b64_char(v as int),
{
    if v < 26 {
        65 + v
    } else if v < 52 {
        71 + v
    } else if v < 62 {
        v - 4
    } else if v == 62 {
        43
    } else {
        47
    }
}

/// The 6-bit group of an alphabet character, or 64.
fn dec_val(c: u8) -> (r: u8)
    ensures
        r as int == b64_val(c),
{
    if 65 <= c && c <= 90 {
        c - 65
    } else if 97 <= c && c <= 122 {
        c - 71
    } else if 48 <= c && c <= 57 {
        c + 4
    } else if c == 43 {
        62
    } else if c == 47 {
        63
    } else {
        64
    }
}

/// What canonical base64 text denotes, if it is canonical.
pub open spec fn b64_decode(s: Seq<u8>) -> Option<Seq<u8>>
    decreases s.len(),
{
    if s.len() == 0 {
        Some(Seq::empty())
    } else if s.len() < 4 {
        None
    } else if s.len() == 4 {
        let v0 = b64_val(s[0]);
        let v1 = b64_val(s[1]);
        if v0 == 64 || v1 == 64 {
            None
        } else if s[2] == 61 && s[3] == 61 {
            if v1 % 16 == 0 {
                Some(seq![(v0 * 4 + v1 / 16) as u8])
            } else {
                None
            }
        } else if s[3] == 61 {
            let v2 = b64_val(s[2]);
            if v2 != 64 && v2 % 4 == 0 {
                Some(seq![(v0 * 4 + v1 / 16) as u8, ((v1 % 16) * 16 + v2 / 4) as u8])
            } else {
                None
            }
        } else {
            let v2 = b64_val(s[2]);
            let v3 = b64_val(s[3]);
            if v2 == 64 || v3 == 64 {
                None
            } else {
                Some(
                    seq![
                        (v0 * 4 + v1 / 16) as u8,
                        ((v1 % 16) * 16 + v2 / 4) as u8,
                        ((v2 % 4) * 64 + v3) as u8,
                    ],
                )
            }
        }
    } else {
        let v0 = b64_val(s[0]);
        let v1 = b64_val(s[1]);
        let v2 = b64_val(s[2]);
        let v3 = b64_val(s[3]);
        if v0 == 64 || v1 == 64 || v2 == 64 || v3 == 64 {
            None
        } else {
            match b64_decode(s.skip(4)) {
                Some(rest) => Some(
                    seq![
                        (v0 * 4 + v1 / 16) as u8,
                        ((v1 % 16) * 16 + v2 / 4) as u8,
                        ((v2 % 4) * 64 + v3) as u8,
                    ] + rest,
                ),
                None => None,
            }
        }
    }
}

/// Decodes canonical base64 text; refuses anything else.
pub fn decode(data: &[u8]) -> (r: Option<Vec<u8>>)
    ensures
        match r {
            Some(v) => b64_decode(data@) == Some(v@),
            None => b64_decode(data@) is None,
        },
{
    let n = data.len();
    let mut out: Vec<u8> = Vec::new();
    let mut i: usize = 0;
    if n % 4 != 0 {
        proof {
            lemma_b64_decode_len_mod(data@);
        }
        return None;
    }
    proof {
        assert(data@.skip(0) =~= data@);
    }
    while n - i > 4
        invariant
            i <= n,
            i % 4 == 0,
            n % 4 == 0,
            n == data@.len(),
            (b64_decode(data@) is Some) <==> (b64_decode(data@.skip(i as int)) is Some),
            match b64_decode(data@) {
                Some(whole) => b64_decode(data@.skip(i as int)) matches Some(rest) && whole
                    == out@ + rest,
                None => true,
            },
        decreases n - i,
    {
        let ghost rest_text = data@.skip(i as int);
        let v0 = dec_val(data[i]);
        let v1 = dec_val(data[i + 1]);
        let v2 = dec_val(data[i + 2]);
        let v3 = dec_val(data[i + 3]);
        if v0 == 64 || v1 == 64 || v2 == 64 || v3 == 64 {
            proof {
                assert(rest_text[0] == data@[i as int]);
                assert(b64_decode(rest_text) is None);
            }
            return None;
        }
        out.push(v0 * 4 + v1 / 16);
        out.push((v1 % 16) * 16 + v2 / 4);
        out.push((v2 % 4) * 64 + v3);
        i += 4;
        proof {
            assert(rest_text.skip(4) =~= data@.skip(i as int));
            if b64_decode(data@) is Some {
                assert(b64_decode(data@) matches Some(whole) ==> whole == out@ + b64_decode(
                    data@.skip(i as int),
                ).unwrap());
            }
        }
    }
    let ghost rest_text = data@.skip(i as int);
    if n == i {
        proof {
            assert(rest_text.len() == 0);
            assert(b64_decode(rest_text) == Some(Seq::<u8>::empty()));
            assert(b64_decode(data@) matches Some(whole) ==> whole =~= out@);
            assert(b64_decode(data@) is Some);
        }
        return Some(out);
    }
    proof {
        assert(rest_text.len() == 4);
        assert(rest_text[0] == data@[i as int]);
        assert(rest_text[1] == data@[i + 1]);
        assert(rest_text[2] == data@[i + 2]);
        assert(rest_text[3] == data@[i + 3]);
    }
    // exactly one final quantum remains
    let v0 = dec_val(data[i]);
    let v1 = dec_val(data[i + 1]);
    if v0 == 64 || v1 == 64 {
        proof {
            assert(b64_decode(rest_text) is None);
        }
        return None;
    }
    if data[i + 2] == 61 && data[i + 3] == 61 {
        if v1 % 16 != 0 {
            proof {
                assert(b64_decode(rest_text) is None);
            }
            return None;
        }
        out.push(v0 * 4 + v1 / 16);
        proof {
            assert(b64_decode(rest_text) is Some);
            assert(b64_decode(data@) matches Some(whole) ==> whole =~= out@);
        }
        Some(out)
    } else if data[i + 3] == 61 {
        let v2 = dec_val(data[i + 2]);
        if v2 == 64 || v2 % 4 != 0 {
            proof {
                assert(b64_decode(rest_text) is None);
            }
            return None;
        }
        out.push(v0 * 4 + v1 / 16);
        out.push((v1 % 16) * 16 + v2 / 4);
        proof {
            assert(b64_decode(rest_text) is Some);
            assert(b64_decode(data@) matches Some(whole) ==> whole =~= out@);
        }
        Some(out)
    } else {
        let v2 = dec_val(data[i + 2]);
        let v3 = dec_val(data[i + 3]);
        if v2 == 64 || v3 == 64 {
            proof {
                assert(b64_decode(rest_text) is None);
            }
            return None;
        }
        out.push(v0 * 4 + v1 / 16);
        out.push((v1 % 16) * 16 + v2 / 4);
        out.push((v2 % 4) * 64 + v3);
        proof {
            assert(b64_decode(rest_text) is Some);
            assert(b64_decode(data@) matches Some(whole) ==> whole =~= out@);
        }
        Some(out)
    }
}

/// Every alphabet character decodes back to its 6-bit group, and none of
/// them is the padding character.
proof fn lemma_b64_char_val(x: int)
    requires
        0 <= x < 64,
    ensures
        b64_val(b64_char(x)) == x,
        b64_char(x) != 61,
        b64_val(b64_char(x)) != 64,
{
}

/// Decoding inverts encoding: every byte sequence comes back from its
/// canonical text.
pub proof fn lemma_b64_round_trip(v: Seq<u8>)
    ensures
        b64_decode(b64_encode(v)) == Some(v),
    decreases v.len(),
{
    let s = b64_encode(v);
    if v.len() == 0 {
        assert(b64_decode(s) == Some(v)) by {
            assert(s =~= Seq::<u8>::empty());
            assert(v =~= Seq::<u8>::empty());
        }
    } else if v.len() == 1 {
        let b0 = v[0];
        lemma_b64_char_val(b0 as int / 4);
        lemma_b64_char_val((b0 as int % 4) * 16);
        assert(((b0 as int % 4) * 16) % 16 == 0) by (nonlinear_arith);
        assert((b0 as int / 4) * 4 + ((b0 as int % 4) * 16) / 16 == b0) by (nonlinear_arith)
            requires
                0 <= b0 < 256,
        ;
        assert(b64_decode(s) matches Some(w) && w =~= v);
    } else if v.len() == 2 {
        let b0 = v[0] as int;
        let b1 = v[1] as int;
        lemma_b64_char_val(b0 / 4);
        lemma_b64_char_val((b0 % 4) * 16 + b1 / 16);
        lemma_b64_char_val((b1 % 16) * 4);
        assert(((b1 % 16) * 4) % 4 == 0) by (nonlinear_arith);
        assert((b0 / 4) * 4 + ((b0 % 4) * 16 + b1 / 16) / 16 == b0) by (nonlinear_arith)
            requires
                0 <= b0 < 256 && 0 <= b1 < 256,
        ;
        assert((((b0 % 4) * 16 + b1 / 16) % 16) * 16 + ((b1 % 16) * 4) / 4 == b1)
            by (nonlinear_arith)
            requires
                0 <= b0 < 256 && 0 <= b1 < 256,
        ;
        assert(b64_decode(s) matches Some(w) && w =~= v);
    } else {
        let b0 = v[0] as int;
        let b1 = v[1] as int;
        let b2 = v[2] as int;
        lemma_b64_char_val(b0 / 4);
        lemma_b64_char_val((b0 % 4) * 16 + b1 / 16);
        lemma_b64_char_val((b1 % 16) * 4 + b2 / 64);
        lemma_b64_char_val(b2 % 64);
        assert((b0 / 4) * 4 + ((b0 % 4) * 16 + b1 / 16) / 16 == b0) by (nonlinear_arith)
            requires
                0 <= b0 < 256 && 0 <= b1 < 256,
        ;
        assert((((b0 % 4) * 16 + b1 / 16) % 16) * 16 + ((b1 % 16) * 4 + b2 / 64) / 4 == b1)
            by (nonlinear_arith)
            requires
                0 <= b0 < 256 && 0 <= b1 < 256 && 0 <= b2 < 256,
        ;
        assert((((b1 % 16) * 4 + b2 / 64) % 4) * 64 + (b2 % 64) == b2) by (nonlinear_arith)
            requires
                0 <= b1 < 256 && 0 <= b2 < 256,
        ;
        lemma_b64_round_trip(v.skip(3));
        let tail = b64_encode(v.skip(3));
        assert(s.skip(4) =~= tail);
        lemma_b64_encode_len(v.skip(3));
        if v.len() == 3 {
            assert(s.len() == 4);
            assert(b64_decode(s) matches Some(w) && w =~= v);
        } else {
            assert(s.len() > 4);
            assert(b64_decode(tail) == Some(v.skip(3)));
            assert(b64_decode(s) matches Some(w) && w =~= v);
        }
    }
}

/// Canonical text is empty only for the empty sequence, and at least four
/// characters otherwise.
proof fn lemma_b64_encode_len(v: Seq<u8>)
    ensures
        v.len() == 0 ==> b64_encode(v).len() == 0,
        v.len() > 0 ==> b64_encode(v).len() >= 4,
    decreases v.len(),
{
    if v.len() > 3 {
        lemma_b64_encode_len(v.skip(3));
    }
}

/// Text whose length is not a multiple of four is never canonical.
proof fn lemma_b64_decode_len_mod(s: Seq<u8>)
    requires
        s.len() % 4 != 0,
    ensures
        b64_decode(s) is None,
    decreases s.len(),
{
    if s.len() > 4 {
        lemma_b64_decode_len_mod(s.skip(4));
    }
}

} // verus!

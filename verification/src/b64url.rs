//! Unpadded base64url on bytes, the transport encoding of the token's
//! header and payload segments. Encoding is canonical (trailing sextet bits
//! are zero), decoding accepts exactly the canonical encodings, and decoding
//! inverts encoding.

use vstd::prelude::*;
use vstd::slice::slice_subrange;

verus! {

/// The base64url alphabet byte for a sextet value in `0..64`.
pub open spec fn spec_b64_char(v: int) -> u8 {
    if v < 26 {
        (65 + v) as u8
    } else if v < 52 {
        (97 + (v - 26)) as u8
    } else if v < 62 {
        (48 + (v - 52)) as u8
    } else if v == 62 {
        45u8
    } else {
        95u8
    }
}

/// The sextet value of an alphabet byte, `-1` outside the alphabet.
pub open spec fn spec_b64_val(b: u8) -> int {
    if 65 <= b <= 90 {
        b - 65
    } else if 97 <= b <= 122 {
        (b - 97) + 26
    } else if 48 <= b <= 57 {
        (b - 48) + 52
    } else if b == 45 {
        62
    } else if b == 95 {
        63
    } else {
        -1
    }
}

/// The alphabet maps are inverse to one another, and alphabet bytes are
/// plain ASCII other than `.`.
pub proof fn lemma_b64_char_val(v: int)
    requires
        0 <= v < 64,
    ensures
        spec_b64_val(spec_b64_char(v)) == v,
        spec_b64_char(v) < 128,
        spec_b64_char(v) != 46,
{
}

/// An alphabet byte is reproduced from its sextet value.
pub proof fn lemma_b64_val_char(b: u8)
    requires
        spec_b64_val(b) >= 0,
    ensures
        spec_b64_val(b) < 64,
        spec_b64_char(spec_b64_val(b)) == b,
{
}

/// The canonical unpadded base64url encoding of a byte sequence.
pub open spec fn spec_b64_encode(s: Seq<u8>) -> Seq<u8>
    decreases s.len(),
{
    if s.len() == 0 {
        Seq::<u8>::empty()
    } else if s.len() == 1 {
        let b0 = s[0] as int;
        seq![spec_b64_char(b0 / 4), spec_b64_char((b0 % 4) * 16)]
    } else if s.len() == 2 {
        let b0 = s[0] as int;
        let b1 = s[1] as int;
        seq![
            spec_b64_char(b0 / 4),
            spec_b64_char((b0 % 4) * 16 + b1 / 16),
            spec_b64_char((b1 % 16) * 4),
        ]
    } else {
        let b0 = s[0] as int;
        let b1 = s[1] as int;
        let b2 = s[2] as int;
        seq![
            spec_b64_char(b0 / 4),
            spec_b64_char((b0 % 4) * 16 + b1 / 16),
            spec_b64_char((b1 % 16) * 4 + b2 / 64),
            spec_b64_char(b2 % 64),
        ] + spec_b64_encode(s.skip(3))
    }
}

/// Quotient and remainder of a scaled sum.
proof fn lemma_mul_div_mod(x: int, r: int, k: int)
    by (nonlinear_arith)
    requires
        k > 0,
        0 <= x,
        0 <= r < k,
    ensures
        (x * k + r) / k == x,
        (x * k + r) % k == r,
{
}

/// How long an encoding is, by the length of the input alone.
pub proof fn lemma_b64_encode_len(s: Seq<u8>)
    ensures
        spec_b64_encode(s).len() % 4 != 1,
        (spec_b64_encode(s).len() == 0) == (s.len() == 0),
        (spec_b64_encode(s).len() == 2) == (s.len() == 1),
        (spec_b64_encode(s).len() == 3) == (s.len() == 2),
        (spec_b64_encode(s).len() >= 4) == (s.len() >= 3),
    decreases s.len(),
{
    if s.len() >= 3 {
        lemma_b64_encode_len(s.skip(3));
    }
}

/// Every byte of an encoding is an alphabet byte: ASCII, never `.`.
pub proof fn lemma_b64_encode_alphabet(s: Seq<u8>)
    ensures
        forall|i: int|
            0 <= i < spec_b64_encode(s).len() ==> spec_b64_val(
                #[trigger] spec_b64_encode(s)[i],
            ) >= 0 && spec_b64_encode(s)[i] < 128 && spec_b64_encode(s)[i] != 46,
    decreases s.len(),
{
    if s.len() == 0 {
    } else if s.len() == 1 {
        let b0 = s[0] as int;
        lemma_b64_char_val(b0 / 4);
        lemma_b64_char_val((b0 % 4) * 16);
    } else if s.len() == 2 {
        let b0 = s[0] as int;
        let b1 = s[1] as int;
        lemma_b64_char_val(b0 / 4);
        lemma_b64_char_val((b0 % 4) * 16 + b1 / 16);
        lemma_b64_char_val((b1 % 16) * 4);
    } else {
        let b0 = s[0] as int;
        let b1 = s[1] as int;
        let b2 = s[2] as int;
        let head = seq![
            spec_b64_char(b0 / 4),
            spec_b64_char((b0 % 4) * 16 + b1 / 16),
            spec_b64_char((b1 % 16) * 4 + b2 / 64),
            spec_b64_char(b2 % 64),
        ];
        assert(spec_b64_encode(s) == head + spec_b64_encode(s.skip(3)));
        lemma_b64_char_val(b0 / 4);
        lemma_b64_char_val((b0 % 4) * 16 + b1 / 16);
        lemma_b64_char_val((b1 % 16) * 4 + b2 / 64);
        lemma_b64_char_val(b2 % 64);
        lemma_b64_encode_alphabet(s.skip(3));
        assert forall|i: int|
            0 <= i < spec_b64_encode(s).len() implies spec_b64_val(
            #[trigger] spec_b64_encode(s)[i],
        ) >= 0 && spec_b64_encode(s)[i] < 128 && spec_b64_encode(s)[i] != 46 by {
            if i >= 4 {
                assert(spec_b64_encode(s)[i] == spec_b64_encode(s.skip(3))[i - 4]);
            }
        }
    }
}

/// Two byte sequences with the same encoding are the same sequence.
pub proof fn lemma_b64_encode_injective(a: Seq<u8>, b: Seq<u8>)
    requires
        spec_b64_encode(a) == spec_b64_encode(b),
    ensures
        a == b,
    decreases a.len(),
{
    lemma_b64_encode_len(a);
    lemma_b64_encode_len(b);
    if a.len() == 0 {
        assert(a =~= b);
    } else if a.len() == 1 {
        let a0 = a[0] as int;
        let b0 = b[0] as int;
        lemma_b64_char_val(a0 / 4);
        lemma_b64_char_val((a0 % 4) * 16);
        lemma_b64_char_val(b0 / 4);
        lemma_b64_char_val((b0 % 4) * 16);
        assert(spec_b64_encode(a)[0] == spec_b64_encode(b)[0]);
        assert(spec_b64_encode(a)[1] == spec_b64_encode(b)[1]);
        assert(a0 / 4 == b0 / 4 && (a0 % 4) * 16 == (b0 % 4) * 16);
        assert(a0 == 4 * (a0 / 4) + a0 % 4) by {
            vstd::arithmetic::div_mod::lemma_fundamental_div_mod(a0, 4);
        }
        assert(b0 == 4 * (b0 / 4) + b0 % 4) by {
            vstd::arithmetic::div_mod::lemma_fundamental_div_mod(b0, 4);
        }
        assert(a =~= b);
    } else if a.len() == 2 {
        let a0 = a[0] as int;
        let a1 = a[1] as int;
        let b0 = b[0] as int;
        let b1 = b[1] as int;
        lemma_b64_char_val(a0 / 4);
        lemma_b64_char_val((a0 % 4) * 16 + a1 / 16);
        lemma_b64_char_val((a1 % 16) * 4);
        lemma_b64_char_val(b0 / 4);
        lemma_b64_char_val((b0 % 4) * 16 + b1 / 16);
        lemma_b64_char_val((b1 % 16) * 4);
        assert(spec_b64_encode(a)[0] == spec_b64_encode(b)[0]);
        assert(spec_b64_encode(a)[1] == spec_b64_encode(b)[1]);
        assert(spec_b64_encode(a)[2] == spec_b64_encode(b)[2]);
        assert(a0 / 4 == b0 / 4);
        assert((a0 % 4) * 16 + a1 / 16 == (b0 % 4) * 16 + b1 / 16);
        assert((a1 % 16) * 4 == (b1 % 16) * 4);
        lemma_mul_div_mod(a0 % 4, a1 / 16, 16);
        lemma_mul_div_mod(b0 % 4, b1 / 16, 16);
        assert(a0 % 4 == b0 % 4 && a1 / 16 == b1 / 16);
        assert(a0 == 4 * (a0 / 4) + a0 % 4) by {
            vstd::arithmetic::div_mod::lemma_fundamental_div_mod(a0, 4);
        }
        assert(b0 == 4 * (b0 / 4) + b0 % 4) by {
            vstd::arithmetic::div_mod::lemma_fundamental_div_mod(b0, 4);
        }
        assert(a1 == 16 * (a1 / 16) + a1 % 16) by {
            vstd::arithmetic::div_mod::lemma_fundamental_div_mod(a1, 16);
        }
        assert(b1 == 16 * (b1 / 16) + b1 % 16) by {
            vstd::arithmetic::div_mod::lemma_fundamental_div_mod(b1, 16);
        }
        assert(a =~= b);
    } else {
        let a0 = a[0] as int;
        let a1 = a[1] as int;
        let a2 = a[2] as int;
        let b0 = b[0] as int;
        let b1 = b[1] as int;
        let b2 = b[2] as int;
        lemma_b64_char_val(a0 / 4);
        lemma_b64_char_val((a0 % 4) * 16 + a1 / 16);
        lemma_b64_char_val((a1 % 16) * 4 + a2 / 64);
        lemma_b64_char_val(a2 % 64);
        lemma_b64_char_val(b0 / 4);
        lemma_b64_char_val((b0 % 4) * 16 + b1 / 16);
        lemma_b64_char_val((b1 % 16) * 4 + b2 / 64);
        lemma_b64_char_val(b2 % 64);
        let heada = seq![
            spec_b64_char(a0 / 4),
            spec_b64_char((a0 % 4) * 16 + a1 / 16),
            spec_b64_char((a1 % 16) * 4 + a2 / 64),
            spec_b64_char(a2 % 64),
        ];
        let headb = seq![
            spec_b64_char(b0 / 4),
            spec_b64_char((b0 % 4) * 16 + b1 / 16),
            spec_b64_char((b1 % 16) * 4 + b2 / 64),
            spec_b64_char(b2 % 64),
        ];
        assert(spec_b64_encode(a) == heada + spec_b64_encode(a.skip(3)));
        assert(spec_b64_encode(b) == headb + spec_b64_encode(b.skip(3)));
        assert(spec_b64_char(a0 / 4) == spec_b64_char(b0 / 4)) by {
            assert((heada + spec_b64_encode(a.skip(3)))[0] == (headb + spec_b64_encode(
                b.skip(3),
            ))[0]);
        }
        assert(spec_b64_char((a0 % 4) * 16 + a1 / 16) == spec_b64_char(
            (b0 % 4) * 16 + b1 / 16,
        )) by {
            assert((heada + spec_b64_encode(a.skip(3)))[1] == (headb + spec_b64_encode(
                b.skip(3),
            ))[1]);
        }
        assert(spec_b64_char((a1 % 16) * 4 + a2 / 64) == spec_b64_char(
            (b1 % 16) * 4 + b2 / 64,
        )) by {
            assert((heada + spec_b64_encode(a.skip(3)))[2] == (headb + spec_b64_encode(
                b.skip(3),
            ))[2]);
        }
        assert(spec_b64_char(a2 % 64) == spec_b64_char(b2 % 64)) by {
            assert((heada + spec_b64_encode(a.skip(3)))[3] == (headb + spec_b64_encode(
                b.skip(3),
            ))[3]);
        }
        lemma_mul_div_mod(a0 % 4, a1 / 16, 16);
        lemma_mul_div_mod(b0 % 4, b1 / 16, 16);
        lemma_mul_div_mod(a1 % 16, a2 / 64, 4);
        lemma_mul_div_mod(b1 % 16, b2 / 64, 4);
        assert(a0 / 4 == b0 / 4 && a0 % 4 == b0 % 4);
        assert(a1 / 16 == b1 / 16 && a1 % 16 == b1 % 16);
        assert(a2 / 64 == b2 / 64 && a2 % 64 == b2 % 64);
        assert(a0 == 4 * (a0 / 4) + a0 % 4) by {
            vstd::arithmetic::div_mod::lemma_fundamental_div_mod(a0, 4);
        }
        assert(b0 == 4 * (b0 / 4) + b0 % 4) by {
            vstd::arithmetic::div_mod::lemma_fundamental_div_mod(b0, 4);
        }
        assert(a1 == 16 * (a1 / 16) + a1 % 16) by {
            vstd::arithmetic::div_mod::lemma_fundamental_div_mod(a1, 16);
        }
        assert(b1 == 16 * (b1 / 16) + b1 % 16) by {
            vstd::arithmetic::div_mod::lemma_fundamental_div_mod(b1, 16);
        }
        assert(a2 == 64 * (a2 / 64) + a2 % 64) by {
            vstd::arithmetic::div_mod::lemma_fundamental_div_mod(a2, 64);
        }
        assert(b2 == 64 * (b2 / 64) + b2 % 64) by {
            vstd::arithmetic::div_mod::lemma_fundamental_div_mod(b2, 64);
        }
        assert(spec_b64_encode(a).skip(4) =~= spec_b64_encode(a.skip(3)));
        assert(spec_b64_encode(b).skip(4) =~= spec_b64_encode(b.skip(3)));
        lemma_b64_encode_injective(a.skip(3), b.skip(3));
        assert(a.len() == b.len());
        assert forall|i: int| 0 <= i < a.len() implies a[i] == b[i] by {
            if i >= 3 {
                assert(a[i] == a.skip(3)[i - 3]);
                assert(b[i] == b.skip(3)[i - 3]);
            }
        }
        assert(a =~= b);
    }
}

/// The alphabet byte of a sextet value.
fn b64_char(v: u8) -> (r: u8)
    requires
        v < 64,
    ensures
        r == spec_b64_char(v as int),
{
    if v < 26 {
        65 + v
    } else if v < 52 {
        97 + (v - 26)
    } else if v < 62 {
        48 + (v - 52)
    } else if v == 62 {
        45
    } else {
        95
    }
}

/// The sextet value of a byte, `None` outside the alphabet.
fn b64_val(b: u8) -> (r: Option<u8>)
    ensures
        match r {
            Some(v) => v == spec_b64_val(b) && v < 64,
            None => spec_b64_val(b) == -1,
        },
{
    if 65 <= b && b <= 90 {
        Some(b - 65)
    } else if 97 <= b && b <= 122 {
        Some((b - 97) + 26)
    } else if 48 <= b && b <= 57 {
        Some((b - 48) + 52)
    } else if b == 45 {
        Some(62)
    } else if b == 95 {
        Some(63)
    } else {
        None
    }
}

/// Encodes a byte sequence as canonical unpadded base64url.
pub fn b64_encode(s: &[u8]) -> (r: Vec<u8>)
    ensures
        r@ == spec_b64_encode(s@),
    decreases s@.len(),
{
    if s.len() == 0 {
        let v: Vec<u8> = Vec::new();
        proof {
            assert(v@ =~= spec_b64_encode(s@));
        }
        v
    } else if s.len() == 1 {
        let b0 = s[0];
        let mut v: Vec<u8> = Vec::new();
        v.push(b64_char(b0 / 4));
        v.push(b64_char((b0 % 4) * 16));
        proof {
            assert(v@ =~= spec_b64_encode(s@));
        }
        v
    } else if s.len() == 2 {
        let b0 = s[0];
        let b1 = s[1];
        let mut v: Vec<u8> = Vec::new();
        v.push(b64_char(b0 / 4));
        v.push(b64_char((b0 % 4) * 16 + b1 / 16));
        v.push(b64_char((b1 % 16) * 4));
        proof {
            assert(v@ =~= spec_b64_encode(s@));
        }
        v
    } else {
        let b0 = s[0];
        let b1 = s[1];
        let b2 = s[2];
        let mut v: Vec<u8> = Vec::new();
        v.push(b64_char(b0 / 4));
        v.push(b64_char((b0 % 4) * 16 + b1 / 16));
        v.push(b64_char((b1 % 16) * 4 + b2 / 64));
        v.push(b64_char(b2 % 64));
        let mut rest = b64_encode(slice_subrange(s, 3, s.len()));
        proof {
            assert(s@.subrange(3, s@.len() as int) =~= s@.skip(3));
        }
        v.append(&mut rest);
        proof {
            assert(v@ =~= spec_b64_encode(s@));
        }
        v
    }
}

/// Decodes canonical unpadded base64url: returns exactly the byte sequence
/// whose encoding is the input, and fails precisely when the input is no
/// canonical encoding.
pub fn b64_decode(s: &[u8]) -> (r: Option<Vec<u8>>)
    ensures
        match r {
            Some(v) => s@ == spec_b64_encode(v@),
            None => forall|b: Seq<u8>| s@ != spec_b64_encode(b),
        },
    decreases s@.len(),
{
    if s.len() == 0 {
        let v: Vec<u8> = Vec::new();
        proof {
            assert(s@ =~= spec_b64_encode(v@));
        }
        Some(v)
    } else if s.len() == 1 {
        proof {
            assert forall|b: Seq<u8>| s@ != spec_b64_encode(b) by {
                lemma_b64_encode_len(b);
            }
        }
        None
    } else if s.len() == 2 {
        let v0o = b64_val(s[0]);
        let v1o = b64_val(s[1]);
        match (v0o, v1o) {
            (Some(v0), Some(v1)) if v1 % 16 == 0 => {
                let b0 = v0 * 4 + v1 / 16;
                let mut v: Vec<u8> = Vec::new();
                v.push(b0);
                proof {
                    lemma_mul_div_mod(v0 as int, v1 as int / 16, 4);
                    assert(b0 as int / 4 == v0 as int && b0 as int % 4 == v1 as int / 16);
                    lemma_b64_val_char(s@[0]);
                    lemma_b64_val_char(s@[1]);
                    assert(v1 as int == (v1 as int / 16) * 16) by {
                        vstd::arithmetic::div_mod::lemma_fundamental_div_mod(v1 as int, 16);
                    }
                    assert(spec_b64_encode(v@) =~= s@);
                }
                Some(v)
            },
            _ => {
                proof {
                    assert forall|b: Seq<u8>| s@ != spec_b64_encode(b) by {
                        if s@ == spec_b64_encode(b) {
                            lemma_b64_encode_len(b);
                            assert(b.len() == 1);
                            let x = b[0] as int;
                            lemma_b64_char_val(x / 4);
                            lemma_b64_char_val((x % 4) * 16);
                            assert(spec_b64_val(s@[0]) == x / 4);
                            assert(spec_b64_val(s@[1]) == (x % 4) * 16);
                            lemma_mul_div_mod(x % 4, 0, 16);
                        }
                    }
                }
                None
            },
        }
    } else if s.len() == 3 {
        let v0o = b64_val(s[0]);
        let v1o = b64_val(s[1]);
        let v2o = b64_val(s[2]);
        match (v0o, v1o, v2o) {
            (Some(v0), Some(v1), Some(v2)) if v2 % 4 == 0 => {
                let b0 = v0 * 4 + v1 / 16;
                let b1 = (v1 % 16) * 16 + v2 / 4;
                let mut v: Vec<u8> = Vec::new();
                v.push(b0);
                v.push(b1);
                proof {
                    lemma_mul_div_mod(v0 as int, v1 as int / 16, 4);
                    lemma_mul_div_mod(v1 as int % 16, v2 as int / 4, 16);
                    lemma_b64_val_char(s@[0]);
                    lemma_b64_val_char(s@[1]);
                    lemma_b64_val_char(s@[2]);
                    assert(v1 as int == (v1 as int / 16) * 16 + v1 as int % 16) by {
                        vstd::arithmetic::div_mod::lemma_fundamental_div_mod(v1 as int, 16);
                    }
                    assert(v2 as int == (v2 as int / 4) * 4) by {
                        vstd::arithmetic::div_mod::lemma_fundamental_div_mod(v2 as int, 4);
                    }
                    assert(spec_b64_encode(v@) =~= s@);
                }
                Some(v)
            },
            _ => {
                proof {
                    assert forall|b: Seq<u8>| s@ != spec_b64_encode(b) by {
                        if s@ == spec_b64_encode(b) {
                            lemma_b64_encode_len(b);
                            assert(b.len() == 2);
                            let x0 = b[0] as int;
                            let x1 = b[1] as int;
                            lemma_b64_char_val(x0 / 4);
                            lemma_b64_char_val((x0 % 4) * 16 + x1 / 16);
                            lemma_b64_char_val((x1 % 16) * 4);
                            assert(spec_b64_val(s@[0]) == x0 / 4);
                            assert(spec_b64_val(s@[1]) == (x0 % 4) * 16 + x1 / 16);
                            assert(spec_b64_val(s@[2]) == (x1 % 16) * 4);
                            lemma_mul_div_mod(x1 % 16, 0, 4);
                        }
                    }
                }
                None
            },
        }
    } else {
        let v0o = b64_val(s[0]);
        let v1o = b64_val(s[1]);
        let v2o = b64_val(s[2]);
        let v3o = b64_val(s[3]);
        match (v0o, v1o, v2o, v3o) {
            (Some(v0), Some(v1), Some(v2), Some(v3)) => {
                let b0 = v0 * 4 + v1 / 16;
                let b1 = (v1 % 16) * 16 + v2 / 4;
                let b2 = (v2 % 4) * 64 + v3;
                match b64_decode(slice_subrange(s, 4, s.len())) {
                    Some(mut rest) => {
                        let mut v: Vec<u8> = Vec::new();
                        v.push(b0);
                        v.push(b1);
                        v.push(b2);
                        let ghost restv = rest@;
                        v.append(&mut rest);
                        proof {
                            lemma_mul_div_mod(v0 as int, v1 as int / 16, 4);
                            lemma_mul_div_mod(v1 as int % 16, v2 as int / 4, 16);
                            lemma_mul_div_mod(v2 as int % 4, v3 as int, 64);
                            lemma_b64_val_char(s@[0]);
                            lemma_b64_val_char(s@[1]);
                            lemma_b64_val_char(s@[2]);
                            lemma_b64_val_char(s@[3]);
                            assert(v1 as int == (v1 as int / 16) * 16 + v1 as int % 16) by {
                                vstd::arithmetic::div_mod::lemma_fundamental_div_mod(
                                    v1 as int,
                                    16,
                                );
                            }
                            assert(v2 as int == (v2 as int / 4) * 4 + v2 as int % 4) by {
                                vstd::arithmetic::div_mod::lemma_fundamental_div_mod(v2 as int, 4);
                            }
                            assert(v@.skip(3) =~= restv);
                            assert(s@.subrange(4, s@.len() as int) == spec_b64_encode(restv));
                            assert(spec_b64_encode(v@) =~= s@);
                        }
                        Some(v)
                    },
                    None => {
                        proof {
                            assert forall|b: Seq<u8>| s@ != spec_b64_encode(b) by {
                                if s@ == spec_b64_encode(b) {
                                    lemma_b64_encode_len(b);
                                    assert(b.len() >= 3);
                                    assert(spec_b64_encode(b).skip(4) =~= spec_b64_encode(
                                        b.skip(3),
                                    ));
                                    assert(s@.subrange(4, s@.len() as int) =~= spec_b64_encode(
                                        b.skip(3),
                                    ));
                                }
                            }
                        }
                        None
                    },
                }
            },
            _ => {
                proof {
                    assert forall|b: Seq<u8>| s@ != spec_b64_encode(b) by {
                        if s@ == spec_b64_encode(b) {
                            lemma_b64_encode_len(b);
                            assert(b.len() >= 3);
                            let x0 = b[0] as int;
                            let x1 = b[1] as int;
                            let x2 = b[2] as int;
                            lemma_b64_char_val(x0 / 4);
                            lemma_b64_char_val((x0 % 4) * 16 + x1 / 16);
                            lemma_b64_char_val((x1 % 16) * 4 + x2 / 64);
                            lemma_b64_char_val(x2 % 64);
                            assert(spec_b64_val(s@[0]) >= 0);
                            assert(spec_b64_val(s@[1]) >= 0);
                            assert(spec_b64_val(s@[2]) >= 0);
                            assert(spec_b64_val(s@[3]) >= 0);
                        }
                    }
                }
                None
            },
        }
    }
}

} // verus!

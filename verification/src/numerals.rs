//! Decimal numerals on ASCII bytes: printing an integer as its canonical
//! digit string and parsing such a string back. The token payload and the
//! configuration parsing are built on these.

use vstd::prelude::*;

verus! {

/// Whether `b` is an ASCII decimal digit.
pub open spec fn spec_is_digit(b: u8) -> bool {
    48 <= b <= 57
}

/// Whether every byte of `s` is an ASCII decimal digit.
pub open spec fn spec_all_digits(s: Seq<u8>) -> bool {
    forall|i: int| 0 <= i < s.len() ==> spec_is_digit(#[trigger] s[i])
}

/// The canonical decimal digit string of `n` (no sign, no leading zeros).
pub open spec fn spec_dec_digits(n: nat) -> Seq<u8>
    decreases n,
{
    if n < 10 {
        seq![(48 + n) as u8]
    } else {
        spec_dec_digits(n / 10) + seq![(48 + n % 10) as u8]
    }
}

/// The integer value of a digit string (meaningful under [`spec_all_digits`]).
pub open spec fn spec_dec_val(s: Seq<u8>) -> int
    decreases s.len(),
{
    if s.len() == 0 {
        0
    } else {
        spec_dec_val(s.drop_last()) * 10 + (s.last() - 48)
    }
}

/// The canonical decimal digit string of a signed value: a `-` before the
/// digit string of the magnitude when `n` is negative.
pub open spec fn spec_signed_dec_digits(n: int) -> Seq<u8> {
    if n < 0 {
        seq![45u8] + spec_dec_digits((-n) as nat)
    } else {
        spec_dec_digits(n as nat)
    }
}

/// The canonical digit string consists of digits and is never empty.
pub proof fn lemma_dec_digits_are_digits(n: nat)
    ensures
        spec_all_digits(spec_dec_digits(n)),
        spec_dec_digits(n).len() >= 1,
    decreases n,
{
    if n >= 10 {
        lemma_dec_digits_are_digits(n / 10);
    }
}

/// Printing then evaluating a decimal numeral gives the number back.
pub proof fn lemma_dec_digits_val(n: nat)
    ensures
        spec_dec_val(spec_dec_digits(n)) == n,
    decreases n,
{
    if n < 10 {
        let s = spec_dec_digits(n);
        assert(s.len() == 1);
        assert(s.last() == (48 + n) as u8);
        assert(s.drop_last() =~= Seq::<u8>::empty());
        assert(spec_dec_val(s.drop_last()) == 0);
        assert(spec_dec_val(s) == spec_dec_val(s.drop_last()) * 10 + (s.last() - 48));
    } else {
        lemma_dec_digits_val(n / 10);
        assert(spec_dec_digits(n).drop_last() =~= spec_dec_digits(n / 10));
        assert(spec_dec_digits(n).last() == (48 + n % 10) as u8);
        assert(n == (n / 10) * 10 + n % 10) by {
            vstd::arithmetic::div_mod::lemma_fundamental_div_mod(n as int, 10);
        }
    }
}

/// The value of a digit string only grows as more digits are appended.
pub proof fn lemma_dec_val_prefix(s: Seq<u8>, i: int)
    requires
        spec_all_digits(s),
        0 <= i <= s.len(),
    ensures
        spec_dec_val(s.take(i)) <= spec_dec_val(s),
        spec_dec_val(s.take(i)) >= 0,
    decreases s.len() - i,
{
    if i == s.len() {
        assert(s.take(i) =~= s);
        lemma_dec_val_nonneg(s);
    } else {
        assert(s.take(i + 1).drop_last() =~= s.take(i));
        assert(s.take(i + 1).last() == s[i]);
        lemma_dec_val_nonneg(s.take(i));
        lemma_dec_val_prefix(s, i + 1);
    }
}

/// A digit string has a nonnegative value.
pub proof fn lemma_dec_val_nonneg(s: Seq<u8>)
    requires
        spec_all_digits(s),
    ensures
        spec_dec_val(s) >= 0,
    decreases s.len(),
{
    if s.len() > 0 {
        assert(spec_all_digits(s.drop_last()));
        lemma_dec_val_nonneg(s.drop_last());
    }
}

/// Prints `n` as its canonical decimal digit string.
pub fn u64_to_dec(n: u64) -> (r: Vec<u8>)
    ensures
        r@ == spec_dec_digits(n as nat),
    decreases n,
{
    if n < 10 {
        let mut v: Vec<u8> = Vec::new();
        v.push((48 + n) as u8);
        proof {
            assert(v@ =~= spec_dec_digits(n as nat));
        }
        v
    } else {
        let mut v = u64_to_dec(n / 10);
        v.push((48 + (n % 10)) as u8);
        proof {
            assert(v@ =~= spec_dec_digits(n as nat));
        }
        v
    }
}

/// Parses a digit string as a `u64`. Returns the value exactly when the
/// input is a nonempty all-digit string whose value fits in a `u64`.
pub fn parse_u64_dec(s: &[u8]) -> (r: Option<u64>)
    ensures
        match r {
            Some(v) => spec_all_digits(s@) && s@.len() >= 1 && v == spec_dec_val(s@),
            None => !(spec_all_digits(s@) && s@.len() >= 1 && spec_dec_val(s@) <= u64::MAX),
        },
{
    if s.len() == 0 {
        return None;
    }
    let mut acc: u64 = 0;
    let mut i: usize = 0;
    while i < s.len()
        invariant
            0 <= i <= s@.len(),
            spec_all_digits(s@.take(i as int)),
            acc == spec_dec_val(s@.take(i as int)),
        decreases s@.len() - i,
    {
        let b = s[i];
        if b < 48 || b > 57 {
            return None;
        }
        let d = (b - 48) as u64;
        let next = match acc.checked_mul(10) {
            Some(m) => m.checked_add(d),
            None => None,
        };
        proof {
            assert(s@.take(i + 1).drop_last() =~= s@.take(i as int));
            assert(s@.take(i + 1).last() == s@[i as int]);
        }
        match next {
            Some(v) => {
                acc = v;
            },
            None => {
                proof {
                    if spec_all_digits(s@) {
                        lemma_dec_val_prefix(s@, i + 1);
                    }
                }
                return None;
            },
        }
        i = i + 1;
    }
    proof {
        assert(s@.take(s@.len() as int) =~= s@);
    }
    Some(acc)
}

/// Prints a signed value as its canonical decimal text.
pub fn i32_to_dec(n: i32) -> (r: Vec<u8>)
    ensures
        r@ == spec_signed_dec_digits(n as int),
{
    if n >= 0 {
        let r = u64_to_dec(n as u64);
        r
    } else {
        let mut v: Vec<u8> = Vec::new();
        v.push(45);
        let m = (-(n as i64)) as u64;
        let mut d = u64_to_dec(m);
        v.append(&mut d);
        proof {
            assert(v@ =~= spec_signed_dec_digits(n as int));
        }
        v
    }
}

/// Parses canonical signed decimal text as an `i32`: returns the value
/// exactly when the input is the canonical text of a value in range.
pub fn parse_i32_dec(s: &[u8]) -> (r: Option<i32>)
    ensures
        match r {
            Some(v) => s@ == spec_signed_dec_digits(v as int),
            None => forall|v: int| i32::MIN <= v <= i32::MAX ==> s@ != spec_signed_dec_digits(v),
        },
{
    let n = s.len();
    if n == 0 {
        proof {
            assert forall|v: int| i32::MIN <= v <= i32::MAX implies s@ != spec_signed_dec_digits(
                v,
            ) by {
                if v < 0 {
                    lemma_dec_digits_are_digits((-v) as nat);
                } else {
                    lemma_dec_digits_are_digits(v as nat);
                }
            }
        }
        return None;
    }
    let candidate: Option<i32> = if s[0] == 45 {
        let rest = vstd::slice::slice_subrange(s, 1, n);
        match parse_u64_dec(rest) {
            Some(m) => {
                if 1 <= m && m <= 2147483648 {
                    Some((-(m as i64)) as i32)
                } else {
                    None
                }
            },
            None => None,
        }
    } else {
        match parse_u64_dec(s) {
            Some(m) => {
                if m <= 2147483647 {
                    Some(m as i32)
                } else {
                    None
                }
            },
            None => None,
        }
    };
    match candidate {
        Some(v) => {
            let canon = i32_to_dec(v);
            if crate::claims::bytes_eq(s, canon.as_slice()) {
                return Some(v);
            }
            proof {
                assert forall|w: int|
                    i32::MIN <= w <= i32::MAX && s@ == spec_signed_dec_digits(w) implies w
                    == v as int by {
                    if w < 0 {
                        lemma_dec_digits_are_digits((-w) as nat);
                        lemma_dec_digits_val((-w) as nat);
                        assert(s@[0] == 45);
                        assert(s@.subrange(1, n as int) =~= spec_dec_digits((-w) as nat));
                    } else {
                        lemma_dec_digits_are_digits(w as nat);
                        lemma_dec_digits_val(w as nat);
                        assert(spec_is_digit(s@[0]));
                    }
                }
                lemma_parse_i32_refute(s@, v as int);
            }
            None
        },
        None => {
            proof {
                if s@[0] == 45 {
                    assert forall|w: int| 1 <= w <= 2147483648 implies s@.subrange(1, n as int)
                        != #[trigger] spec_dec_digits(w as nat) by {
                        if s@.subrange(1, n as int) == spec_dec_digits(w as nat) {
                            lemma_dec_digits_are_digits(w as nat);
                            lemma_dec_digits_val(w as nat);
                        }
                    }
                } else {
                    assert forall|w: int| 0 <= w <= 2147483647 implies s@
                        != #[trigger] spec_dec_digits(w as nat) by {
                        if s@ == spec_dec_digits(w as nat) {
                            lemma_dec_digits_are_digits(w as nat);
                            lemma_dec_digits_val(w as nat);
                        }
                    }
                }
                lemma_parse_i32_refute_all(s@);
            }
            None
        },
    }
}

/// If the canonical text of `w` equals `s`, then `w`'s own canonical text is
/// the one candidate `s` can match; a failed match refutes every `w`.
proof fn lemma_parse_i32_refute(s: Seq<u8>, v: int)
    requires
        s != spec_signed_dec_digits(v),
        forall|w: int| i32::MIN <= w <= i32::MAX && s == spec_signed_dec_digits(w) ==> w == v,
    ensures
        forall|w: int| i32::MIN <= w <= i32::MAX ==> s != spec_signed_dec_digits(w),
{
}

/// Used where no candidate value was produced: any claimed match is refuted
/// through the value of its digit text.
proof fn lemma_parse_i32_refute_all(s: Seq<u8>)
    requires
        s.len() >= 1,
        s[0] == 45 ==> (forall|w: int| 1 <= w <= 2147483648 ==> s.subrange(1, s.len() as int)
            != #[trigger] spec_dec_digits(w as nat)),
        s[0] != 45 ==> (forall|w: int| 0 <= w <= 2147483647 ==> s != #[trigger] spec_dec_digits(
            w as nat,
        )),
    ensures
        forall|w: int| i32::MIN <= w <= i32::MAX ==> s != spec_signed_dec_digits(w),
{
    assert forall|w: int| i32::MIN <= w <= i32::MAX implies s != spec_signed_dec_digits(w) by {
        if s == spec_signed_dec_digits(w) {
            if w < 0 {
                lemma_dec_digits_are_digits((-w) as nat);
                assert(s[0] == 45);
                assert(s.subrange(1, s.len() as int) =~= spec_dec_digits((-w) as nat));
            } else {
                lemma_dec_digits_are_digits(w as nat);
                assert(s[0] != 45) by {
                    assert(spec_is_digit(s[0]));
                }
            }
        }
    }
}

/// Two values with the same canonical signed decimal text are equal.
pub proof fn lemma_signed_dec_injective(a: int, b: int)
    requires
        spec_signed_dec_digits(a) == spec_signed_dec_digits(b),
    ensures
        a == b,
{
    if a < 0 {
        lemma_dec_digits_are_digits((-a) as nat);
    } else {
        lemma_dec_digits_are_digits(a as nat);
    }
    if b < 0 {
        lemma_dec_digits_are_digits((-b) as nat);
    } else {
        lemma_dec_digits_are_digits(b as nat);
    }
    if a < 0 && b < 0 {
        assert(spec_dec_digits((-a) as nat) =~= (seq![45u8] + spec_dec_digits((-a) as nat)).skip(
            1,
        ));
        assert(spec_dec_digits((-b) as nat) =~= (seq![45u8] + spec_dec_digits((-b) as nat)).skip(
            1,
        ));
        lemma_dec_digits_val((-a) as nat);
        lemma_dec_digits_val((-b) as nat);
    } else if a >= 0 && b >= 0 {
        lemma_dec_digits_val(a as nat);
        lemma_dec_digits_val(b as nat);
    } else if a < 0 {
        assert(spec_signed_dec_digits(a)[0] == 45);
        assert(spec_is_digit(spec_signed_dec_digits(b)[0]));
        assert(false);
    } else {
        assert(spec_signed_dec_digits(b)[0] == 45);
        assert(spec_is_digit(spec_signed_dec_digits(a)[0]));
        assert(false);
    }
}

/// Powers of ten.
pub open spec fn spec_pow10(k: nat) -> nat
    decreases k,
{
    if k == 0 {
        1
    } else {
        10 * spec_pow10((k - 1) as nat)
    }
}

/// A value below the `k`-th power of ten has at most `k` digits.
pub proof fn lemma_dec_digits_len(n: nat, k: nat)
    requires
        k >= 1,
        n < spec_pow10(k),
    ensures
        spec_dec_digits(n).len() <= k,
    decreases n,
{
    if n >= 10 {
        assert(spec_pow10(k) == 10 * spec_pow10((k - 1) as nat));
        if k == 1 {
            assert(spec_pow10(0nat) == 1);
            assert(false);
        }
        assert(n / 10 < spec_pow10((k - 1) as nat)) by {
            vstd::arithmetic::div_mod::lemma_fundamental_div_mod(n as int, 10);
        }
        lemma_dec_digits_len(n / 10, (k - 1) as nat);
    }
}

/// A run of zero digits has value zero.
pub proof fn lemma_dec_val_zeros(z: nat)
    ensures
        spec_dec_val(Seq::new(z, |i: int| 48u8)) == 0,
    decreases z,
{
    if z > 0 {
        assert(Seq::new(z, |i: int| 48u8).drop_last() =~= Seq::new(
            (z - 1) as nat,
            |i: int| 48u8,
        ));
        lemma_dec_val_zeros((z - 1) as nat);
    }
}

/// Leading zero digits do not change a numeral's value.
pub proof fn lemma_dec_val_leading_zeros(z: nat, s: Seq<u8>)
    ensures
        spec_dec_val(Seq::new(z, |i: int| 48u8) + s) == spec_dec_val(s),
    decreases s.len(),
{
    let zeros = Seq::new(z, |i: int| 48u8);
    if s.len() == 0 {
        assert(zeros + s =~= zeros);
        lemma_dec_val_zeros(z);
    } else {
        assert((zeros + s).drop_last() =~= zeros + s.drop_last());
        assert((zeros + s).last() == s.last());
        lemma_dec_val_leading_zeros(z, s.drop_last());
    }
}

} // verus!

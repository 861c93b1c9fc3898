//! Token claims and their canonical JSON form.
//!
//! A claim set is printed as exactly one byte layout,
//! `{"sub":"<sub>","role":"<role>","exp":<exp>,"iat":<iat>}`, and the parser
//! accepts exactly that layout. Printing then parsing returns the original
//! claim set, and two well-formed claim sets with the same printed form are
//! the same claim set.

use vstd::prelude::*;
use crate::numerals::{
    spec_all_digits, spec_dec_digits, spec_dec_val, spec_is_digit, lemma_dec_digits_are_digits,
    lemma_dec_digits_val, parse_u64_dec, u64_to_dec,
};
use crate::user::UserRole;

verus! {

/// The claim set carried by a token: subject, role, and the two epoch-second
/// stamps. `sub` holds the subject identifier as its decimal text.
#[derive(Debug, Clone)]
pub struct Claims {
    pub sub: String,
    pub role: UserRole,
    pub exp: u64,
    pub iat: u64,
}

/// The mathematical model of a claim set: the subject as the bytes of its
/// text, the role, and the stamps as integers.
pub struct ClaimsView {
    pub sub: Seq<u8>,
    pub role: UserRole,
    pub exp: int,
    pub iat: int,
}

impl View for Claims {
    type V = ClaimsView;

    open spec fn view(&self) -> ClaimsView {
        ClaimsView {
            sub: vstd::utf8::encode_utf8(self.sub@),
            role: self.role,
            exp: self.exp as int,
            iat: self.iat as int,
        }
    }
}

/// Well-formedness of a claim set: the subject text is plain ASCII without a
/// double quote, and the stamps fit in 64 bits.
pub open spec fn claims_view_wf(c: ClaimsView) -> bool {
    &&& forall|i: int| 0 <= i < c.sub.len() ==> #[trigger] c.sub[i] < 128 && c.sub[i] != 34
    &&& 0 <= c.exp <= u64::MAX
    &&& 0 <= c.iat <= u64::MAX
}

/// The bytes of `{"sub":"`.
pub open spec fn spec_lit_sub() -> Seq<u8> {
    seq![123u8, 34, 115, 117, 98, 34, 58, 34]
}

/// The bytes of `","role":"`.
pub open spec fn spec_lit_role() -> Seq<u8> {
    seq![34u8, 44, 34, 114, 111, 108, 101, 34, 58, 34]
}

/// The bytes of `","exp":`.
pub open spec fn spec_lit_exp() -> Seq<u8> {
    seq![34u8, 44, 34, 101, 120, 112, 34, 58]
}

/// The bytes of `,"iat":`.
pub open spec fn spec_lit_iat() -> Seq<u8> {
    seq![44u8, 34, 105, 97, 116, 34, 58]
}

/// The canonical lowercase name of a role, as bytes.
pub open spec fn spec_role_bytes(r: UserRole) -> Seq<u8> {
    match r {
        UserRole::Admin => seq![97u8, 100, 109, 105, 110],
        UserRole::Worker => seq![119u8, 111, 114, 107, 101, 114],
        UserRole::User => seq![117u8, 115, 101, 114],
    }
}

/// Role names are lowercase ASCII words: no quote, no separator bytes.
pub proof fn lemma_role_bytes_plain(r: UserRole)
    ensures
        4 <= spec_role_bytes(r).len() <= 6,
        forall|i: int|
            0 <= i < spec_role_bytes(r).len() ==> 97 <= #[trigger] spec_role_bytes(r)[i] <= 122,
{
}

/// Distinct roles have distinct names.
pub proof fn lemma_role_bytes_injective(r1: UserRole, r2: UserRole)
    requires
        spec_role_bytes(r1) == spec_role_bytes(r2),
    ensures
        r1 == r2,
{
    if r1 != r2 {
        assert(spec_role_bytes(r1).len() != spec_role_bytes(r2).len());
    }
}

/// The canonical JSON bytes of a claim set.
pub open spec fn spec_claims_json(c: ClaimsView) -> Seq<u8> {
    spec_lit_sub() + c.sub + spec_lit_role() + spec_role_bytes(c.role) + spec_lit_exp()
        + spec_dec_digits(c.exp as nat) + spec_lit_iat() + spec_dec_digits(c.iat as nat)
        + seq![125u8]
}

/// Offsets of the segments inside the canonical JSON bytes.
pub open spec fn spec_p1(c: ClaimsView) -> int {
    8 + c.sub.len() as int
}

pub open spec fn spec_p2(c: ClaimsView) -> int {
    spec_p1(c) + 10
}

pub open spec fn spec_p3(c: ClaimsView) -> int {
    spec_p2(c) + spec_role_bytes(c.role).len()
}

pub open spec fn spec_p4(c: ClaimsView) -> int {
    spec_p3(c) + 8
}

pub open spec fn spec_p5(c: ClaimsView) -> int {
    spec_p4(c) + spec_dec_digits(c.exp as nat).len()
}

pub open spec fn spec_p6(c: ClaimsView) -> int {
    spec_p5(c) + 7
}

pub open spec fn spec_p7(c: ClaimsView) -> int {
    spec_p6(c) + spec_dec_digits(c.iat as nat).len()
}

/// Where each segment of the canonical JSON form lies.
pub proof fn lemma_claims_json_shape(c: ClaimsView)
    ensures
        spec_claims_json(c).len() == spec_p7(c) + 1,
        spec_claims_json(c).subrange(0, 8) == spec_lit_sub(),
        spec_claims_json(c).subrange(8, spec_p1(c)) == c.sub,
        spec_claims_json(c).subrange(spec_p1(c), spec_p2(c)) == spec_lit_role(),
        spec_claims_json(c).subrange(spec_p2(c), spec_p3(c)) == spec_role_bytes(c.role),
        spec_claims_json(c).subrange(spec_p3(c), spec_p4(c)) == spec_lit_exp(),
        spec_claims_json(c).subrange(spec_p4(c), spec_p5(c)) == spec_dec_digits(c.exp as nat),
        spec_claims_json(c).subrange(spec_p5(c), spec_p6(c)) == spec_lit_iat(),
        spec_claims_json(c).subrange(spec_p6(c), spec_p7(c)) == spec_dec_digits(c.iat as nat),
        spec_claims_json(c)[spec_p7(c)] == 125,
        spec_p4(c) < spec_p5(c),
        spec_p6(c) < spec_p7(c),
{
    lemma_dec_digits_are_digits(c.exp as nat);
    lemma_dec_digits_are_digits(c.iat as nat);
    let j = spec_claims_json(c);
    assert(j.subrange(0, 8) =~= spec_lit_sub());
    assert(j.subrange(8, spec_p1(c)) =~= c.sub);
    assert(j.subrange(spec_p1(c), spec_p2(c)) =~= spec_lit_role());
    assert(j.subrange(spec_p2(c), spec_p3(c)) =~= spec_role_bytes(c.role));
    assert(j.subrange(spec_p3(c), spec_p4(c)) =~= spec_lit_exp());
    assert(j.subrange(spec_p4(c), spec_p5(c)) =~= spec_dec_digits(c.exp as nat));
    assert(j.subrange(spec_p5(c), spec_p6(c)) =~= spec_lit_iat());
    assert(j.subrange(spec_p6(c), spec_p7(c)) =~= spec_dec_digits(c.iat as nat));
}

/// Appending the same prefix keeps sequences apart.
pub proof fn lemma_concat_cancel(p: Seq<u8>, x: Seq<u8>, y: Seq<u8>)
    requires
        p + x == p + y,
    ensures
        x == y,
{
    assert((p + x).len() == p.len() + x.len());
    assert((p + y).len() == p.len() + y.len());
    assert(x.len() == y.len());
    assert forall|i: int| 0 <= i < x.len() implies x[i] == y[i] by {
        assert((p + x)[p.len() + i] == x[i]);
        assert((p + y)[p.len() + i] == y[i]);
    }
    assert(x =~= y);
}

/// In a concatenation whose head is free of a delimiter byte and whose tail
/// starts with it, the first occurrence of the delimiter marks the split.
pub proof fn lemma_first_delim(a1: Seq<u8>, b1: Seq<u8>, a2: Seq<u8>, b2: Seq<u8>, d: u8)
    requires
        a1 + b1 == a2 + b2,
        forall|i: int| 0 <= i < a1.len() ==> #[trigger] a1[i] != d,
        forall|i: int| 0 <= i < a2.len() ==> #[trigger] a2[i] != d,
        b1.len() > 0,
        b2.len() > 0,
        b1[0] == d,
        b2[0] == d,
    ensures
        a1 == a2,
        b1 == b2,
{
    if a1.len() < a2.len() {
        assert((a1 + b1)[a1.len() as int] == d);
        assert((a2 + b2)[a1.len() as int] == a2[a1.len() as int]);
        assert(false);
    }
    if a2.len() < a1.len() {
        assert((a2 + b2)[a2.len() as int] == d);
        assert((a1 + b1)[a2.len() as int] == a1[a2.len() as int]);
        assert(false);
    }
    assert forall|i: int| 0 <= i < a1.len() implies a1[i] == a2[i] by {
        assert((a1 + b1)[i] == a1[i]);
        assert((a2 + b2)[i] == a2[i]);
    }
    assert(a1 =~= a2);
    lemma_concat_cancel(a1, b1, b2);
}

/// Two well-formed claim sets with the same canonical JSON form are equal.
#[verifier::rlimit(100)]
pub proof fn lemma_claims_json_injective(c1: ClaimsView, c2: ClaimsView)
    requires
        claims_view_wf(c1),
        claims_view_wf(c2),
        spec_claims_json(c1) == spec_claims_json(c2),
    ensures
        c1 == c2,
{
    lemma_claims_json_shape(c1);
    lemma_claims_json_shape(c2);
    lemma_dec_digits_are_digits(c1.exp as nat);
    lemma_dec_digits_are_digits(c1.iat as nat);
    lemma_dec_digits_are_digits(c2.exp as nat);
    lemma_dec_digits_are_digits(c2.iat as nat);
    let j = spec_claims_json(c1);
    // The subject segment: first double quote after the fixed prefix.
    let r1 = j.subrange(8, j.len() as int);
    assert(r1 =~= (c1.sub + j.subrange(spec_p1(c1), j.len() as int)));
    assert(r1 =~= (c2.sub + j.subrange(spec_p1(c2), j.len() as int)));
    assert(j.subrange(spec_p1(c1), j.len() as int)[0] == 34);
    assert(j.subrange(spec_p1(c2), j.len() as int)[0] == 34);
    lemma_first_delim(
        c1.sub,
        j.subrange(spec_p1(c1), j.len() as int),
        c2.sub,
        j.subrange(spec_p1(c2), j.len() as int),
        34,
    );
    assert(c1.sub == c2.sub);
    assert(spec_p1(c1) == spec_p1(c2));
    // The role segment: next double quote.
    let r2 = j.subrange(spec_p2(c1), j.len() as int);
    assert(r2 =~= (spec_role_bytes(c1.role) + j.subrange(spec_p3(c1), j.len() as int)));
    assert(r2 =~= (spec_role_bytes(c2.role) + j.subrange(spec_p3(c2), j.len() as int)));
    lemma_role_bytes_plain(c1.role);
    lemma_role_bytes_plain(c2.role);
    assert(j.subrange(spec_p3(c1), j.len() as int)[0] == 34);
    assert(j.subrange(spec_p3(c2), j.len() as int)[0] == 34);
    lemma_first_delim(
        spec_role_bytes(c1.role),
        j.subrange(spec_p3(c1), j.len() as int),
        spec_role_bytes(c2.role),
        j.subrange(spec_p3(c2), j.len() as int),
        34,
    );
    lemma_role_bytes_injective(c1.role, c2.role);
    assert(c1.role == c2.role);
    assert(spec_p3(c1) == spec_p3(c2));
    // The expiry digits: up to the next comma.
    let r3 = j.subrange(spec_p4(c1), j.len() as int);
    assert(r3 =~= (spec_dec_digits(c1.exp as nat) + j.subrange(spec_p5(c1), j.len() as int)));
    assert(r3 =~= (spec_dec_digits(c2.exp as nat) + j.subrange(spec_p5(c2), j.len() as int)));
    assert(j.subrange(spec_p5(c1), j.len() as int)[0] == 44);
    assert(j.subrange(spec_p5(c2), j.len() as int)[0] == 44);
    lemma_first_delim(
        spec_dec_digits(c1.exp as nat),
        j.subrange(spec_p5(c1), j.len() as int),
        spec_dec_digits(c2.exp as nat),
        j.subrange(spec_p5(c2), j.len() as int),
        44,
    );
    lemma_dec_digits_val(c1.exp as nat);
    lemma_dec_digits_val(c2.exp as nat);
    assert(c1.exp == c2.exp);
    assert(spec_p5(c1) == spec_p5(c2));
    // The issue stamp digits: up to the closing brace.
    let r4 = j.subrange(spec_p6(c1), j.len() as int);
    assert(r4 =~= (spec_dec_digits(c1.iat as nat) + j.subrange(spec_p7(c1), j.len() as int)));
    assert(r4 =~= (spec_dec_digits(c2.iat as nat) + j.subrange(spec_p7(c2), j.len() as int)));
    assert(j.subrange(spec_p7(c1), j.len() as int)[0] == 125);
    assert(j.subrange(spec_p7(c2), j.len() as int)[0] == 125);
    lemma_first_delim(
        spec_dec_digits(c1.iat as nat),
        j.subrange(spec_p7(c1), j.len() as int),
        spec_dec_digits(c2.iat as nat),
        j.subrange(spec_p7(c2), j.len() as int),
        125,
    );
    lemma_dec_digits_val(c1.iat as nat);
    lemma_dec_digits_val(c2.iat as nat);
    assert(c1.iat == c2.iat);
}

/// The first `"` at or after the subject segment of a canonical claim set
/// is the one that closes the subject.
proof fn lemma_sub_boundary(cv: ClaimsView, s: Seq<u8>, j1: int)
    requires
        claims_view_wf(cv),
        s == spec_claims_json(cv),
        8 <= j1 < s.len(),
        s[j1] == 34,
        forall|k: int| 8 <= k < j1 ==> s[k] != 34,
    ensures
        j1 == spec_p1(cv),
        s.subrange(8, j1) == cv.sub,
{
    lemma_claims_json_shape(cv);
    assert(s[spec_p1(cv)] == 34) by {
        assert(s.subrange(spec_p1(cv), spec_p2(cv))[0] == s[spec_p1(cv)]);
    }
    assert forall|k: int| 8 <= k < spec_p1(cv) implies s[k] != 34 by {
        assert(s.subrange(8, spec_p1(cv))[k - 8] == s[k]);
        assert(cv.sub[k - 8] != 34);
    }
    if j1 < spec_p1(cv) {
        assert(false);
    }
    if j1 > spec_p1(cv) {
        assert(false);
    }
}

/// The first `"` at or after the role segment closes the role.
proof fn lemma_role_boundary(cv: ClaimsView, s: Seq<u8>, j2: int)
    requires
        claims_view_wf(cv),
        s == spec_claims_json(cv),
        spec_p2(cv) <= j2 < s.len(),
        s[j2] == 34,
        forall|k: int| spec_p2(cv) <= k < j2 ==> s[k] != 34,
    ensures
        j2 == spec_p3(cv),
        s.subrange(spec_p2(cv), j2) == spec_role_bytes(cv.role),
{
    lemma_claims_json_shape(cv);
    lemma_role_bytes_plain(cv.role);
    assert(s[spec_p3(cv)] == 34) by {
        assert(s.subrange(spec_p3(cv), spec_p4(cv))[0] == s[spec_p3(cv)]);
    }
    assert forall|k: int| spec_p2(cv) <= k < spec_p3(cv) implies s[k] != 34 by {
        assert(s.subrange(spec_p2(cv), spec_p3(cv))[k - spec_p2(cv)] == s[k]);
        assert(97 <= spec_role_bytes(cv.role)[k - spec_p2(cv)] <= 122);
    }
    if j2 < spec_p3(cv) {
        assert(false);
    }
    if j2 > spec_p3(cv) {
        assert(false);
    }
}

/// The first `,` at or after the expiry digits ends them.
proof fn lemma_exp_boundary(cv: ClaimsView, s: Seq<u8>, j3: int)
    requires
        claims_view_wf(cv),
        s == spec_claims_json(cv),
        spec_p4(cv) <= j3 < s.len(),
        s[j3] == 44,
        forall|k: int| spec_p4(cv) <= k < j3 ==> s[k] != 44,
    ensures
        j3 == spec_p5(cv),
        s.subrange(spec_p4(cv), j3) == spec_dec_digits(cv.exp as nat),
{
    lemma_claims_json_shape(cv);
    lemma_dec_digits_are_digits(cv.exp as nat);
    assert(s[spec_p5(cv)] == 44) by {
        assert(s.subrange(spec_p5(cv), spec_p6(cv))[0] == s[spec_p5(cv)]);
    }
    assert forall|k: int| spec_p4(cv) <= k < spec_p5(cv) implies s[k] != 44 by {
        assert(s.subrange(spec_p4(cv), spec_p5(cv))[k - spec_p4(cv)] == s[k]);
        assert(spec_is_digit(spec_dec_digits(cv.exp as nat)[k - spec_p4(cv)]));
    }
    if j3 < spec_p5(cv) {
        assert(false);
    }
    if j3 > spec_p5(cv) {
        assert(false);
    }
}

/// The first `}` at or after the issue stamp digits ends them.
proof fn lemma_iat_boundary(cv: ClaimsView, s: Seq<u8>, j4: int)
    requires
        claims_view_wf(cv),
        s == spec_claims_json(cv),
        spec_p6(cv) <= j4 < s.len(),
        s[j4] == 125,
        forall|k: int| spec_p6(cv) <= k < j4 ==> s[k] != 125,
    ensures
        j4 == spec_p7(cv),
        s.subrange(spec_p6(cv), j4) == spec_dec_digits(cv.iat as nat),
{
    lemma_claims_json_shape(cv);
    lemma_dec_digits_are_digits(cv.iat as nat);
    assert(s[spec_p7(cv)] == 125);
    assert forall|k: int| spec_p6(cv) <= k < spec_p7(cv) implies s[k] != 125 by {
        assert(s.subrange(spec_p6(cv), spec_p7(cv))[k - spec_p6(cv)] == s[k]);
        assert(spec_is_digit(spec_dec_digits(cv.iat as nat)[k - spec_p6(cv)]));
    }
    if j4 < spec_p7(cv) {
        assert(false);
    }
    if j4 > spec_p7(cv) {
        assert(false);
    }
}

/// The bytes of `{"sub":"`.
fn lit_sub() -> (v: Vec<u8>)
    ensures
        v@ == spec_lit_sub(),
{
    let mut v: Vec<u8> = Vec::new();
    v.push(123);
    v.push(34);
    v.push(115);
    v.push(117);
    v.push(98);
    v.push(34);
    v.push(58);
    v.push(34);
    proof {
        assert(v@ =~= spec_lit_sub());
    }
    v
}

/// The bytes of `","role":"`.
fn lit_role() -> (v: Vec<u8>)
    ensures
        v@ == spec_lit_role(),
{
    let mut v: Vec<u8> = Vec::new();
    v.push(34);
    v.push(44);
    v.push(34);
    v.push(114);
    v.push(111);
    v.push(108);
    v.push(101);
    v.push(34);
    v.push(58);
    v.push(34);
    proof {
        assert(v@ =~= spec_lit_role());
    }
    v
}

/// The bytes of `","exp":`.
fn lit_exp() -> (v: Vec<u8>)
    ensures
        v@ == spec_lit_exp(),
{
    let mut v: Vec<u8> = Vec::new();
    v.push(34);
    v.push(44);
    v.push(34);
    v.push(101);
    v.push(120);
    v.push(112);
    v.push(34);
    v.push(58);
    proof {
        assert(v@ =~= spec_lit_exp());
    }
    v
}

/// The bytes of `,"iat":`.
fn lit_iat() -> (v: Vec<u8>)
    ensures
        v@ == spec_lit_iat(),
{
    let mut v: Vec<u8> = Vec::new();
    v.push(44);
    v.push(34);
    v.push(105);
    v.push(97);
    v.push(116);
    v.push(34);
    v.push(58);
    proof {
        assert(v@ =~= spec_lit_iat());
    }
    v
}

/// The canonical name bytes of a role.
fn role_lit(r: UserRole) -> (v: Vec<u8>)
    ensures
        v@ == spec_role_bytes(r),
{
    let mut v: Vec<u8> = Vec::new();
    match r {
        UserRole::Admin => {
            v.push(97);
            v.push(100);
            v.push(109);
            v.push(105);
            v.push(110);
        },
        UserRole::Worker => {
            v.push(119);
            v.push(111);
            v.push(114);
            v.push(107);
            v.push(101);
            v.push(114);
        },
        UserRole::User => {
            v.push(117);
            v.push(115);
            v.push(101);
            v.push(114);
        },
    }
    proof {
        assert(v@ =~= spec_role_bytes(r));
    }
    v
}

/// Byte-sequence equality.
pub fn bytes_eq(a: &[u8], b: &[u8]) -> (r: bool)
    ensures
        r == (a@ == b@),
{
    if a.len() != b.len() {
        return false;
    }
    let mut i: usize = 0;
    while i < a.len()
        invariant
            a@.len() == b@.len(),
            0 <= i <= a@.len(),
            forall|k: int| 0 <= k < i ==> a@[k] == b@[k],
        decreases a@.len() - i,
    {
        if a[i] != b[i] {
            return false;
        }
        i = i + 1;
    }
    proof {
        assert(a@ =~= b@);
    }
    true
}

/// Whether `lit` occurs in `s` exactly at `pos`.
pub(crate) fn match_lit(s: &[u8], pos: usize, lit: &[u8]) -> (r: bool)
    requires
        pos <= s@.len(),
    ensures
        r == (pos + lit@.len() <= s@.len() && s@.subrange(
            pos as int,
            pos + lit@.len(),
        ) == lit@),
{
    let n = s.len();
    if n - pos < lit.len() {
        return false;
    }
    let mut i: usize = 0;
    while i < lit.len()
        invariant
            n == s@.len(),
            pos + lit@.len() <= n,
            0 <= i <= lit@.len(),
            forall|k: int| 0 <= k < i ==> s@[pos + k] == lit@[k],
        decreases lit@.len() - i,
    {
        if s[pos + i] != lit[i] {
            proof {
                assert(s@.subrange(pos as int, pos + lit@.len())[i as int] == s@[pos + i]);
            }
            return false;
        }
        i = i + 1;
    }
    proof {
        assert(s@.subrange(pos as int, pos + lit@.len()) =~= lit@);
    }
    true
}

/// Scans from `pos` to the first occurrence of `d`, handing back the bytes
/// before it and its position.
pub(crate) fn read_until(s: &[u8], pos: usize, d: u8) -> (r: Option<(Vec<u8>, usize)>)
    requires
        pos <= s@.len(),
    ensures
        match r {
            Some(p) => pos <= p.1 < s@.len() && p.0@ == s@.subrange(pos as int, p.1 as int)
                && s@[p.1 as int] == d && (forall|k: int| pos <= k < p.1 ==> s@[k] != d),
            None => forall|k: int| pos <= k < s@.len() ==> s@[k] != d,
        },
{
    let mut j: usize = pos;
    let mut out: Vec<u8> = Vec::new();
    while j < s.len()
        invariant
            pos <= j <= s@.len(),
            out@ == s@.subrange(pos as int, j as int),
            forall|k: int| pos <= k < j ==> s@[k] != d,
        decreases s@.len() - j,
    {
        if s[j] == d {
            return Some((out, j));
        }
        out.push(s[j]);
        proof {
            assert(out@ =~= s@.subrange(pos as int, j + 1));
        }
        j = j + 1;
    }
    None
}

/// One character for each ASCII byte.
pub open spec fn ascii_chars(b: Seq<u8>) -> Seq<char> {
    Seq::new(b.len(), |i: int| b[i] as char)
}

/// Relies on `String::from_utf8`: the returned string consists of exactly
/// the given bytes; ASCII input guarantees valid UTF-8 and one character
/// per byte.
#[verifier::external_body]
pub(crate) fn string_from_ascii(v: Vec<u8>) -> (r: String)
    requires
        forall|i: int| 0 <= i < v@.len() ==> v@[i] < 128,
    ensures
        vstd::utf8::encode_utf8(r@) == v@,
        r@ == ascii_chars(v@),
{
    match String::from_utf8(v) {
        Ok(s) => s,
        Err(_) => String::new(),
    }
}

/// Prints a claim set as its canonical JSON bytes.
pub fn claims_to_json(c: &Claims) -> (r: Vec<u8>)
    ensures
        r@ == spec_claims_json(c@),
{
    let mut v: Vec<u8> = Vec::new();
    let l1 = lit_sub();
    v.extend_from_slice(l1.as_slice());
    let sb = c.sub.as_str().as_bytes_vec();
    v.extend_from_slice(sb.as_slice());
    let l2 = lit_role();
    v.extend_from_slice(l2.as_slice());
    let rb = role_lit(c.role);
    v.extend_from_slice(rb.as_slice());
    let l3 = lit_exp();
    v.extend_from_slice(l3.as_slice());
    let de = u64_to_dec(c.exp);
    v.extend_from_slice(de.as_slice());
    let l4 = lit_iat();
    v.extend_from_slice(l4.as_slice());
    let di = u64_to_dec(c.iat);
    v.extend_from_slice(di.as_slice());
    v.push(125);
    proof {
        assert(v@ =~= spec_claims_json(c@));
    }
    v
}

/// The role whose canonical name is `b`, if any.
fn role_from_bytes(b: &[u8]) -> (r: Option<UserRole>)
    ensures
        match r {
            Some(x) => b@ == spec_role_bytes(x),
            None => forall|x: UserRole| b@ != spec_role_bytes(x),
        },
{
    let admin = role_lit(UserRole::Admin);
    let worker = role_lit(UserRole::Worker);
    let user = role_lit(UserRole::User);
    if bytes_eq(b, admin.as_slice()) {
        Some(UserRole::Admin)
    } else if bytes_eq(b, worker.as_slice()) {
        Some(UserRole::Worker)
    } else if bytes_eq(b, user.as_slice()) {
        Some(UserRole::User)
    } else {
        proof {
            assert forall|x: UserRole| b@ != spec_role_bytes(x) by {
                if x is Admin {
                } else if x is Worker {
                } else {
                }
            }
        }
        None
    }
}

/// Whether every byte is plain ASCII.
fn all_ascii(b: &[u8]) -> (r: bool)
    ensures
        r == (forall|i: int| 0 <= i < b@.len() ==> b@[i] < 128),
{
    let mut k: usize = 0;
    while k < b.len()
        invariant
            0 <= k <= b@.len(),
            forall|i: int| 0 <= i < k ==> b@[i] < 128,
        decreases b@.len() - k,
    {
        if b[k] >= 128 {
            return false;
        }
        k = k + 1;
    }
    true
}


/// The first occurrence of `d` at or after `from` is at `j`.
pub open spec fn found_byte(s: Seq<u8>, from: int, j: int, d: u8) -> bool {
    &&& from <= j < s.len()
    &&& s[j] == d
    &&& forall|k: int| from <= k < j ==> s[k] != d
}

spec fn sub_scanned(s: Seq<u8>, j1: int) -> bool {
    found_byte(s, 8, j1, 34)
}

spec fn role_lit_at(s: Seq<u8>, j1: int) -> bool {
    j1 + 10 <= s.len() && s.subrange(j1, j1 + 10) == spec_lit_role()
}

spec fn role_scanned(s: Seq<u8>, j1: int, j2: int) -> bool {
    found_byte(s, j1 + 10, j2, 34)
}

spec fn exp_lit_at(s: Seq<u8>, j2: int) -> bool {
    j2 + 8 <= s.len() && s.subrange(j2, j2 + 8) == spec_lit_exp()
}

spec fn exp_scanned(s: Seq<u8>, j2: int, j3: int) -> bool {
    found_byte(s, j2 + 8, j3, 44)
}

spec fn iat_lit_at(s: Seq<u8>, j3: int) -> bool {
    j3 + 7 <= s.len() && s.subrange(j3, j3 + 7) == spec_lit_iat()
}

spec fn iat_scanned(s: Seq<u8>, j3: int, j4: int) -> bool {
    found_byte(s, j3 + 7, j4, 125)
}

/// No canonical form: the fixed prefix is absent.
proof fn lemma_refuse_prefix(s: Seq<u8>)
    requires
        !(8 <= s.len() && s.subrange(0, 8) == spec_lit_sub()),
    ensures
        forall|cv: ClaimsView| claims_view_wf(cv) ==> s != spec_claims_json(cv),
{
    assert forall|cv: ClaimsView| claims_view_wf(cv) implies s != spec_claims_json(cv) by {
        if s == spec_claims_json(cv) {
            lemma_claims_json_shape(cv);
            lemma_role_bytes_plain(cv.role);
            assert(false);
        }
    }
}

/// No canonical form: no quote closes a subject.
proof fn lemma_refuse_no_sub_quote(s: Seq<u8>)
    requires
        forall|k: int| 8 <= k < s.len() ==> s[k] != 34,
    ensures
        forall|cv: ClaimsView| claims_view_wf(cv) ==> s != spec_claims_json(cv),
{
    assert forall|cv: ClaimsView| claims_view_wf(cv) implies s != spec_claims_json(cv) by {
        if s == spec_claims_json(cv) {
            lemma_claims_json_shape(cv);
            lemma_role_bytes_plain(cv.role);
            assert(s[spec_p1(cv)] == 34) by {
                assert(s.subrange(spec_p1(cv), spec_p2(cv))[0] == s[spec_p1(cv)]);
            }
            assert(false);
        }
    }
}

/// No canonical form: the subject segment is not plain ASCII.
proof fn lemma_refuse_sub_not_ascii(s: Seq<u8>, j1: int)
    requires
        sub_scanned(s, j1),
        !(forall|i: int| 8 <= i < j1 ==> s[i] < 128),
    ensures
        forall|cv: ClaimsView| claims_view_wf(cv) ==> s != spec_claims_json(cv),
{
    assert forall|cv: ClaimsView| claims_view_wf(cv) implies s != spec_claims_json(cv) by {
        if s == spec_claims_json(cv) {
            lemma_sub_boundary(cv, s, j1);
            let w = choose|i: int| 8 <= i < j1 && !(s[i] < 128);
            assert(s.subrange(8, j1)[w - 8] == s[w]);
            assert(cv.sub[w - 8] < 128);
            assert(false);
        }
    }
}

/// No canonical form: the role opener does not follow the subject.
proof fn lemma_refuse_role_lit(s: Seq<u8>, j1: int)
    requires
        sub_scanned(s, j1),
        !role_lit_at(s, j1),
    ensures
        forall|cv: ClaimsView| claims_view_wf(cv) ==> s != spec_claims_json(cv),
{
    assert forall|cv: ClaimsView| claims_view_wf(cv) implies s != spec_claims_json(cv) by {
        if s == spec_claims_json(cv) {
            lemma_sub_boundary(cv, s, j1);
            lemma_claims_json_shape(cv);
            lemma_role_bytes_plain(cv.role);
            assert(false);
        }
    }
}

/// No canonical form: no quote closes a role.
proof fn lemma_refuse_no_role_quote(s: Seq<u8>, j1: int)
    requires
        sub_scanned(s, j1),
        role_lit_at(s, j1),
        forall|k: int| j1 + 10 <= k < s.len() ==> s[k] != 34,
    ensures
        forall|cv: ClaimsView| claims_view_wf(cv) ==> s != spec_claims_json(cv),
{
    assert forall|cv: ClaimsView| claims_view_wf(cv) implies s != spec_claims_json(cv) by {
        if s == spec_claims_json(cv) {
            lemma_sub_boundary(cv, s, j1);
            lemma_claims_json_shape(cv);
            lemma_role_bytes_plain(cv.role);
            assert(s[spec_p3(cv)] == 34) by {
                assert(s.subrange(spec_p3(cv), spec_p4(cv))[0] == s[spec_p3(cv)]);
            }
            assert(false);
        }
    }
}

/// No canonical form: the role word is none of the three role names.
proof fn lemma_refuse_role_word(s: Seq<u8>, j1: int, j2: int)
    requires
        sub_scanned(s, j1),
        role_lit_at(s, j1),
        role_scanned(s, j1, j2),
        forall|x: UserRole| s.subrange(j1 + 10, j2) != spec_role_bytes(x),
    ensures
        forall|cv: ClaimsView| claims_view_wf(cv) ==> s != spec_claims_json(cv),
{
    assert forall|cv: ClaimsView| claims_view_wf(cv) implies s != spec_claims_json(cv) by {
        if s == spec_claims_json(cv) {
            lemma_sub_boundary(cv, s, j1);
            lemma_role_boundary(cv, s, j2);
            assert(s.subrange(j1 + 10, j2) == spec_role_bytes(cv.role));
            assert(false);
        }
    }
}

/// No canonical form: the expiry opener does not follow the role.
proof fn lemma_refuse_exp_lit(s: Seq<u8>, j1: int, j2: int)
    requires
        sub_scanned(s, j1),
        role_lit_at(s, j1),
        role_scanned(s, j1, j2),
        !exp_lit_at(s, j2),
    ensures
        forall|cv: ClaimsView| claims_view_wf(cv) ==> s != spec_claims_json(cv),
{
    assert forall|cv: ClaimsView| claims_view_wf(cv) implies s != spec_claims_json(cv) by {
        if s == spec_claims_json(cv) {
            lemma_sub_boundary(cv, s, j1);
            lemma_role_boundary(cv, s, j2);
            lemma_claims_json_shape(cv);
            assert(false);
        }
    }
}

/// No canonical form: no comma ends the expiry digits.
proof fn lemma_refuse_no_comma(s: Seq<u8>, j1: int, j2: int)
    requires
        sub_scanned(s, j1),
        role_lit_at(s, j1),
        role_scanned(s, j1, j2),
        exp_lit_at(s, j2),
        forall|k: int| j2 + 8 <= k < s.len() ==> s[k] != 44,
    ensures
        forall|cv: ClaimsView| claims_view_wf(cv) ==> s != spec_claims_json(cv),
{
    assert forall|cv: ClaimsView| claims_view_wf(cv) implies s != spec_claims_json(cv) by {
        if s == spec_claims_json(cv) {
            lemma_sub_boundary(cv, s, j1);
            lemma_role_boundary(cv, s, j2);
            lemma_claims_json_shape(cv);
            assert(s[spec_p5(cv)] == 44) by {
                assert(s.subrange(spec_p5(cv), spec_p6(cv))[0] == s[spec_p5(cv)]);
            }
            assert(false);
        }
    }
}

/// No canonical form: the expiry segment is not a `u64` numeral.
proof fn lemma_refuse_exp_digits(s: Seq<u8>, j1: int, j2: int, j3: int)
    requires
        sub_scanned(s, j1),
        role_lit_at(s, j1),
        role_scanned(s, j1, j2),
        exp_lit_at(s, j2),
        exp_scanned(s, j2, j3),
        !(spec_all_digits(s.subrange(j2 + 8, j3)) && s.subrange(j2 + 8, j3).len() >= 1
            && spec_dec_val(s.subrange(j2 + 8, j3)) <= u64::MAX),
    ensures
        forall|cv: ClaimsView| claims_view_wf(cv) ==> s != spec_claims_json(cv),
{
    assert forall|cv: ClaimsView| claims_view_wf(cv) implies s != spec_claims_json(cv) by {
        if s == spec_claims_json(cv) {
            lemma_sub_boundary(cv, s, j1);
            lemma_role_boundary(cv, s, j2);
            lemma_exp_boundary(cv, s, j3);
            lemma_dec_digits_are_digits(cv.exp as nat);
            lemma_dec_digits_val(cv.exp as nat);
            assert(false);
        }
    }
}

/// No canonical form: the expiry digits carry a leading zero.
proof fn lemma_refuse_exp_canon(s: Seq<u8>, j1: int, j2: int, j3: int, v: u64)
    requires
        sub_scanned(s, j1),
        role_lit_at(s, j1),
        role_scanned(s, j1, j2),
        exp_lit_at(s, j2),
        exp_scanned(s, j2, j3),
        v == spec_dec_val(s.subrange(j2 + 8, j3)),
        s.subrange(j2 + 8, j3) != spec_dec_digits(v as nat),
    ensures
        forall|cv: ClaimsView| claims_view_wf(cv) ==> s != spec_claims_json(cv),
{
    assert forall|cv: ClaimsView| claims_view_wf(cv) implies s != spec_claims_json(cv) by {
        if s == spec_claims_json(cv) {
            lemma_sub_boundary(cv, s, j1);
            lemma_role_boundary(cv, s, j2);
            lemma_exp_boundary(cv, s, j3);
            lemma_dec_digits_val(cv.exp as nat);
            assert(false);
        }
    }
}

/// No canonical form: the issue-stamp opener does not follow the expiry.
proof fn lemma_refuse_iat_lit(s: Seq<u8>, j1: int, j2: int, j3: int)
    requires
        sub_scanned(s, j1),
        role_lit_at(s, j1),
        role_scanned(s, j1, j2),
        exp_lit_at(s, j2),
        exp_scanned(s, j2, j3),
        !iat_lit_at(s, j3),
    ensures
        forall|cv: ClaimsView| claims_view_wf(cv) ==> s != spec_claims_json(cv),
{
    assert forall|cv: ClaimsView| claims_view_wf(cv) implies s != spec_claims_json(cv) by {
        if s == spec_claims_json(cv) {
            lemma_sub_boundary(cv, s, j1);
            lemma_role_boundary(cv, s, j2);
            lemma_exp_boundary(cv, s, j3);
            lemma_claims_json_shape(cv);
            assert(false);
        }
    }
}

/// No canonical form: no closing brace ends the issue stamp.
proof fn lemma_refuse_no_brace(s: Seq<u8>, j1: int, j2: int, j3: int)
    requires
        sub_scanned(s, j1),
        role_lit_at(s, j1),
        role_scanned(s, j1, j2),
        exp_lit_at(s, j2),
        exp_scanned(s, j2, j3),
        iat_lit_at(s, j3),
        forall|k: int| j3 + 7 <= k < s.len() ==> s[k] != 125,
    ensures
        forall|cv: ClaimsView| claims_view_wf(cv) ==> s != spec_claims_json(cv),
{
    assert forall|cv: ClaimsView| claims_view_wf(cv) implies s != spec_claims_json(cv) by {
        if s == spec_claims_json(cv) {
            lemma_sub_boundary(cv, s, j1);
            lemma_role_boundary(cv, s, j2);
            lemma_exp_boundary(cv, s, j3);
            lemma_claims_json_shape(cv);
            assert(false);
        }
    }
}

/// No canonical form: the issue-stamp segment is not a `u64` numeral.
proof fn lemma_refuse_iat_digits(s: Seq<u8>, j1: int, j2: int, j3: int, j4: int)
    requires
        sub_scanned(s, j1),
        role_lit_at(s, j1),
        role_scanned(s, j1, j2),
        exp_lit_at(s, j2),
        exp_scanned(s, j2, j3),
        iat_lit_at(s, j3),
        iat_scanned(s, j3, j4),
        !(spec_all_digits(s.subrange(j3 + 7, j4)) && s.subrange(j3 + 7, j4).len() >= 1
            && spec_dec_val(s.subrange(j3 + 7, j4)) <= u64::MAX),
    ensures
        forall|cv: ClaimsView| claims_view_wf(cv) ==> s != spec_claims_json(cv),
{
    assert forall|cv: ClaimsView| claims_view_wf(cv) implies s != spec_claims_json(cv) by {
        if s == spec_claims_json(cv) {
            lemma_sub_boundary(cv, s, j1);
            lemma_role_boundary(cv, s, j2);
            lemma_exp_boundary(cv, s, j3);
            lemma_iat_boundary(cv, s, j4);
            lemma_dec_digits_are_digits(cv.iat as nat);
            lemma_dec_digits_val(cv.iat as nat);
            assert(false);
        }
    }
}

/// No canonical form: the issue-stamp digits carry a leading zero.
proof fn lemma_refuse_iat_canon(s: Seq<u8>, j1: int, j2: int, j3: int, j4: int, v: u64)
    requires
        sub_scanned(s, j1),
        role_lit_at(s, j1),
        role_scanned(s, j1, j2),
        exp_lit_at(s, j2),
        exp_scanned(s, j2, j3),
        iat_lit_at(s, j3),
        iat_scanned(s, j3, j4),
        v == spec_dec_val(s.subrange(j3 + 7, j4)),
        s.subrange(j3 + 7, j4) != spec_dec_digits(v as nat),
    ensures
        forall|cv: ClaimsView| claims_view_wf(cv) ==> s != spec_claims_json(cv),
{
    assert forall|cv: ClaimsView| claims_view_wf(cv) implies s != spec_claims_json(cv) by {
        if s == spec_claims_json(cv) {
            lemma_sub_boundary(cv, s, j1);
            lemma_role_boundary(cv, s, j2);
            lemma_exp_boundary(cv, s, j3);
            lemma_iat_boundary(cv, s, j4);
            lemma_dec_digits_val(cv.iat as nat);
            assert(false);
        }
    }
}

/// No canonical form: bytes follow the closing brace.
proof fn lemma_refuse_trailing(s: Seq<u8>, j1: int, j2: int, j3: int, j4: int)
    requires
        sub_scanned(s, j1),
        role_lit_at(s, j1),
        role_scanned(s, j1, j2),
        exp_lit_at(s, j2),
        exp_scanned(s, j2, j3),
        iat_lit_at(s, j3),
        iat_scanned(s, j3, j4),
        j4 + 1 != s.len(),
    ensures
        forall|cv: ClaimsView| claims_view_wf(cv) ==> s != spec_claims_json(cv),
{
    assert forall|cv: ClaimsView| claims_view_wf(cv) implies s != spec_claims_json(cv) by {
        if s == spec_claims_json(cv) {
            lemma_sub_boundary(cv, s, j1);
            lemma_role_boundary(cv, s, j2);
            lemma_exp_boundary(cv, s, j3);
            lemma_iat_boundary(cv, s, j4);
            lemma_claims_json_shape(cv);
            assert(false);
        }
    }
}

/// Parses the canonical JSON bytes of a claim set: returns exactly the
/// well-formed claim set whose printed form is the input, and fails
/// precisely when the input is no such printed form.
#[verifier::rlimit(100)]
pub fn parse_claims_json(s: &[u8]) -> (r: Option<Claims>)
    ensures
        match r {
            Some(c) => claims_view_wf(c@) && s@ == spec_claims_json(c@),
            None => forall|cv: ClaimsView| claims_view_wf(cv) ==> s@ != spec_claims_json(cv),
        },
{
    let n = s.len();
    let l1 = lit_sub();
    if !match_lit(s, 0, l1.as_slice()) {
        proof {
            lemma_refuse_prefix(s@);
        }
        return None;
    }
    let (subv, j1) = match read_until(s, 8, 34) {
        Some(p) => p,
        None => {
            proof {
                lemma_refuse_no_sub_quote(s@);
            }
            return None;
        },
    };
    if !all_ascii(subv.as_slice()) {
        proof {
            assert(!(forall|i: int| 8 <= i < j1 ==> s@[i] < 128)) by {
                let w = choose|i: int| 0 <= i < subv@.len() && !(subv@[i] < 128);
                assert(subv@[w] == s@.subrange(8, j1 as int)[w]);
            }
            lemma_refuse_sub_not_ascii(s@, j1 as int);
        }
        return None;
    }
    let l2 = lit_role();
    if !match_lit(s, j1, l2.as_slice()) {
        proof {
            lemma_refuse_role_lit(s@, j1 as int);
        }
        return None;
    }
    let (rolev, j2) = match read_until(s, j1 + 10, 34) {
        Some(p) => p,
        None => {
            proof {
                lemma_refuse_no_role_quote(s@, j1 as int);
            }
            return None;
        },
    };
    let role = match role_from_bytes(rolev.as_slice()) {
        Some(x) => x,
        None => {
            proof {
                lemma_refuse_role_word(s@, j1 as int, j2 as int);
            }
            return None;
        },
    };
    let l3 = lit_exp();
    if !match_lit(s, j2, l3.as_slice()) {
        proof {
            lemma_refuse_exp_lit(s@, j1 as int, j2 as int);
        }
        return None;
    }
    let (expv, j3) = match read_until(s, j2 + 8, 44) {
        Some(p) => p,
        None => {
            proof {
                lemma_refuse_no_comma(s@, j1 as int, j2 as int);
            }
            return None;
        },
    };
    let exp = match parse_u64_dec(expv.as_slice()) {
        Some(x) => x,
        None => {
            proof {
                lemma_refuse_exp_digits(s@, j1 as int, j2 as int, j3 as int);
            }
            return None;
        },
    };
    let exp_canon = u64_to_dec(exp);
    if !bytes_eq(expv.as_slice(), exp_canon.as_slice()) {
        proof {
            lemma_refuse_exp_canon(s@, j1 as int, j2 as int, j3 as int, exp);
        }
        return None;
    }
    let l4 = lit_iat();
    if !match_lit(s, j3, l4.as_slice()) {
        proof {
            lemma_refuse_iat_lit(s@, j1 as int, j2 as int, j3 as int);
        }
        return None;
    }
    let (iatv, j4) = match read_until(s, j3 + 7, 125) {
        Some(p) => p,
        None => {
            proof {
                lemma_refuse_no_brace(s@, j1 as int, j2 as int, j3 as int);
            }
            return None;
        },
    };
    let iat = match parse_u64_dec(iatv.as_slice()) {
        Some(x) => x,
        None => {
            proof {
                lemma_refuse_iat_digits(s@, j1 as int, j2 as int, j3 as int, j4 as int);
            }
            return None;
        },
    };
    let iat_canon = u64_to_dec(iat);
    if !bytes_eq(iatv.as_slice(), iat_canon.as_slice()) {
        proof {
            lemma_refuse_iat_canon(s@, j1 as int, j2 as int, j3 as int, j4 as int, iat);
        }
        return None;
    }
    if j4 + 1 != n {
        proof {
            lemma_refuse_trailing(s@, j1 as int, j2 as int, j3 as int, j4 as int);
        }
        return None;
    }
    let sub = string_from_ascii(subv);
    let c = Claims { sub, role, exp, iat };
    proof {
        let end = s@.len() as int;
        assert(c@.sub == s@.subrange(8, j1 as int));
        assert(s@.subrange(0, j1 as int) =~= s@.subrange(0, 8) + s@.subrange(8, j1 as int));
        assert(s@.subrange(0, j1 + 10) =~= s@.subrange(0, j1 as int) + s@.subrange(
            j1 as int,
            j1 + 10,
        ));
        assert(s@.subrange(0, j2 as int) =~= s@.subrange(0, j1 + 10) + s@.subrange(
            j1 + 10,
            j2 as int,
        ));
        assert(s@.subrange(0, j2 + 8) =~= s@.subrange(0, j2 as int) + s@.subrange(
            j2 as int,
            j2 + 8,
        ));
        assert(s@.subrange(0, j3 as int) =~= s@.subrange(0, j2 + 8) + s@.subrange(
            j2 + 8,
            j3 as int,
        ));
        assert(s@.subrange(0, j3 + 7) =~= s@.subrange(0, j3 as int) + s@.subrange(
            j3 as int,
            j3 + 7,
        ));
        assert(s@.subrange(0, j4 as int) =~= s@.subrange(0, j3 + 7) + s@.subrange(
            j3 + 7,
            j4 as int,
        ));
        assert(s@.subrange(0, end) =~= s@.subrange(0, j4 as int) + s@.subrange(j4 as int, end));
        assert(s@.subrange(j4 as int, end) =~= seq![125u8]);
        assert(s@.subrange(0, end) =~= s@);
        assert(s@ == spec_lit_sub() + c@.sub + spec_lit_role() + spec_role_bytes(c@.role)
            + spec_lit_exp() + spec_dec_digits(c@.exp as nat) + spec_lit_iat() + spec_dec_digits(
            c@.iat as nat,
        ) + seq![125u8]);
    }
    Some(c)
}

} // verus!

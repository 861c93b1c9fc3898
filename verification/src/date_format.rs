//! Calendar timestamps as plain values, and the textual forms the API
//! exchanges: `YYYY-MM-DD` dates, `HH:MM` times, the storage datetime
//! format, and `HH:MM` durations.

use vstd::prelude::*;
use crate::claims::{ascii_chars, bytes_eq, read_until, string_from_ascii};
use crate::numerals::{
    spec_all_digits, spec_dec_digits, spec_dec_val, spec_pow10, lemma_dec_digits_are_digits,
    lemma_dec_digits_len, lemma_dec_digits_val, lemma_dec_val_leading_zeros,
    lemma_dec_val_nonneg, parse_u64_dec, u64_to_dec,
};
use vstd::slice::slice_subrange;

verus! {

/// A civil datetime in the proleptic Gregorian calendar, UTC.
#[derive(Debug, Clone, Copy, PartialEq, Eq, Structural)]
pub struct DateTimeUtc {
    pub year: u32,
    pub month: u8,
    pub day: u8,
    pub hour: u8,
    pub minute: u8,
    pub second: u8,
}

/// Whether `y` is a Gregorian leap year.
pub open spec fn spec_is_leap_year(y: int) -> bool {
    y % 4 == 0 && (y % 100 != 0 || y % 400 == 0)
}

/// The number of days in month `m` of year `y` (for `m` in `1..=12`).
pub open spec fn spec_days_in_month(y: int, m: int) -> int {
    if m == 2 {
        if spec_is_leap_year(y) {
            29
        } else {
            28
        }
    } else if m == 4 || m == 6 || m == 9 || m == 11 {
        30
    } else {
        31
    }
}

/// Field ranges of a usable datetime value: a real civil date (the day
/// exists in its month and year) with in-range time fields.
pub open spec fn date_wf(d: DateTimeUtc) -> bool {
    &&& 1 <= d.year <= 9999
    &&& 1 <= d.month <= 12
    &&& 1 <= d.day <= spec_days_in_month(d.year as int, d.month as int)
    &&& d.hour < 24
    &&& d.minute < 60
    &&& d.second < 60
}

/// The number of days in month `m` of year `y`.
pub fn days_in_month(y: u32, m: u8) -> (r: u8)
    requires
        1 <= m <= 12,
    ensures
        r == spec_days_in_month(y as int, m as int),
{
    if m == 2 {
        if y % 4 == 0 && (y % 100 != 0 || y % 400 == 0) {
            29
        } else {
            28
        }
    } else if m == 4 || m == 6 || m == 9 || m == 11 {
        30
    } else {
        31
    }
}

/// Days since 1970-01-01 of a civil date (Gregorian, year >= 1).
pub open spec fn spec_days_from_civil(y: int, m: int, d: int) -> int {
    let yy = if m <= 2 {
        y - 1
    } else {
        y
    };
    let era = yy / 400;
    let yoe = yy - era * 400;
    let mp = if m > 2 {
        m - 3
    } else {
        m + 9
    };
    let doy = (153 * mp + 2) / 5 + d - 1;
    let doe = yoe * 365 + yoe / 4 - yoe / 100 + doy;
    era * 146097 + doe - 719468
}

/// Seconds since the epoch of a datetime value.
pub open spec fn spec_timestamp(d: DateTimeUtc) -> int {
    spec_days_from_civil(d.year as int, d.month as int, d.day as int) * 86400 + d.hour as int
        * 3600 + d.minute as int * 60 + d.second as int
}

/// The decimal text of `n` left-padded with zeros to `w` digits.
pub open spec fn spec_zero_pad(n: nat, w: nat) -> Seq<u8> {
    if spec_dec_digits(n).len() >= w {
        spec_dec_digits(n)
    } else {
        Seq::new((w - spec_dec_digits(n).len()) as nat, |i: int| 48u8) + spec_dec_digits(n)
    }
}

/// The bytes of `YYYY-MM-DD` for a datetime value.
pub open spec fn spec_date_bytes(d: DateTimeUtc) -> Seq<u8> {
    spec_zero_pad(d.year as nat, 4) + seq![45u8] + spec_zero_pad(d.month as nat, 2) + seq![45u8]
        + spec_zero_pad(d.day as nat, 2)
}

/// The bytes of `HH:MM` for a datetime value.
pub open spec fn spec_time_bytes(d: DateTimeUtc) -> Seq<u8> {
    spec_zero_pad(d.hour as nat, 2) + seq![58u8] + spec_zero_pad(d.minute as nat, 2)
}

/// The bytes of the storage form `YYYY-MM-DD HH:MM:SS`.
pub open spec fn spec_mysql_bytes(d: DateTimeUtc) -> Seq<u8> {
    spec_date_bytes(d) + seq![32u8] + spec_time_bytes(d) + seq![58u8] + spec_zero_pad(
        d.second as nat,
        2,
    )
}

/// Appends the zero-padded decimal text of `n` to `out`.
fn push_padded(out: &mut Vec<u8>, n: u64, w: usize)
    requires
        w <= 8,
    ensures
        final(out)@ == old(out)@ + spec_zero_pad(n as nat, w as nat),
        forall|i: int|
            old(out)@.len() <= i < final(out)@.len() ==> #[trigger] final(out)@[i] < 128,
{
    let d = u64_to_dec(n);
    proof {
        lemma_dec_digits_are_digits(n as nat);
    }
    let mut k: usize = d.len();
    while k < w
        invariant
            out@ == old(out)@ + Seq::new((k - d@.len()) as nat, |i: int| 48u8),
            d@.len() <= k,
            k <= w || k == d@.len(),
            w <= 8,
        decreases w - k,
    {
        out.push(48);
        proof {
            assert(out@ =~= old(out)@ + Seq::new((k + 1 - d@.len()) as nat, |i: int| 48u8));
        }
        k = k + 1;
    }
    let mut dd = d;
    out.append(&mut dd);
    proof {
        assert(out@ =~= old(out)@ + spec_zero_pad(n as nat, w as nat));
        assert forall|i: int|
            old(out)@.len() <= i < out@.len() implies #[trigger] out@[i] < 128 by {
            if out@[i] != 48 {
                assert(spec_zero_pad(n as nat, w as nat)[i - old(out)@.len()] == out@[i]);
            }
        }
    }
}

/// Formats a datetime as `YYYY-MM-DD`.
pub fn format_date(date: &DateTimeUtc) -> (r: String)
    ensures
        vstd::utf8::encode_utf8(r@) == spec_date_bytes(*date),
        r@ == ascii_chars(spec_date_bytes(*date)),
{
    let mut v: Vec<u8> = Vec::new();
    push_padded(&mut v, date.year as u64, 4);
    v.push(45);
    push_padded(&mut v, date.month as u64, 2);
    v.push(45);
    push_padded(&mut v, date.day as u64, 2);
    proof {
        assert(v@ =~= spec_date_bytes(*date));
    }
    string_from_ascii(v)
}

/// Formats a datetime as `HH:MM`.
pub fn format_time(date: &DateTimeUtc) -> (r: String)
    ensures
        vstd::utf8::encode_utf8(r@) == spec_time_bytes(*date),
        r@ == ascii_chars(spec_time_bytes(*date)),
{
    let mut v: Vec<u8> = Vec::new();
    push_padded(&mut v, date.hour as u64, 2);
    v.push(58);
    push_padded(&mut v, date.minute as u64, 2);
    proof {
        assert(v@ =~= spec_time_bytes(*date));
    }
    string_from_ascii(v)
}

/// Formats a datetime in the storage form `YYYY-MM-DD HH:MM:SS`.
pub fn format_mysql_datetime(date: &DateTimeUtc) -> (r: String)
    ensures
        vstd::utf8::encode_utf8(r@) == spec_mysql_bytes(*date),
        r@ == ascii_chars(spec_mysql_bytes(*date)),
{
    let mut v: Vec<u8> = Vec::new();
    push_padded(&mut v, date.year as u64, 4);
    v.push(45);
    push_padded(&mut v, date.month as u64, 2);
    v.push(45);
    push_padded(&mut v, date.day as u64, 2);
    v.push(32);
    push_padded(&mut v, date.hour as u64, 2);
    v.push(58);
    push_padded(&mut v, date.minute as u64, 2);
    v.push(58);
    push_padded(&mut v, date.second as u64, 2);
    proof {
        assert(v@ =~= spec_mysql_bytes(*date));
    }
    string_from_ascii(v)
}

/// Seconds since the epoch of a datetime value.
pub fn timestamp(d: &DateTimeUtc) -> (r: i64)
    requires
        date_wf(*d),
    ensures
        r == spec_timestamp(*d),
{
    let y: u64 = d.year as u64;
    let m: u64 = d.month as u64;
    let dd: u64 = d.day as u64;
    let yy: u64 = if m <= 2 {
        y - 1
    } else {
        y
    };
    let era: u64 = yy / 400;
    let yoe: u64 = yy - era * 400;
    let mp: u64 = if m > 2 {
        m - 3
    } else {
        m + 9
    };
    let doy: u64 = (153 * mp + 2) / 5 + dd - 1;
    let doe: u64 = yoe * 365 + yoe / 4 - yoe / 100 + doy;
    let shifted_days: u64 = era * 146097 + doe;
    let total: u64 = shifted_days * 86400 + (d.hour as u64) * 3600 + (d.minute as u64) * 60 + (
    d.second as u64);
    (total as i64) - 62162035200
}

/// The `HH:MM` text of a span of seconds: total hours, then leftover
/// minutes, both zero-padded to two digits.
pub open spec fn spec_duration_text(secs: int) -> Seq<u8> {
    spec_zero_pad((secs / 3600) as nat, 2) + seq![58u8] + spec_zero_pad(
        ((secs % 3600) / 60) as nat,
        2,
    )
}

/// Formats the span from `start` to `end` as `HH:MM` (total hours and
/// leftover minutes).
pub fn calculate_duration(start: &DateTimeUtc, end: &DateTimeUtc) -> (r: String)
    requires
        date_wf(*start),
        date_wf(*end),
        spec_timestamp(*start) <= spec_timestamp(*end),
    ensures
        vstd::utf8::encode_utf8(r@) == spec_duration_text(
            spec_timestamp(*end) - spec_timestamp(*start),
        ),
        r@ == ascii_chars(spec_duration_text(spec_timestamp(*end) - spec_timestamp(*start))),
{
    let ts = timestamp(start);
    let te = timestamp(end);
    let dur: i64 = te - ts;
    let hours: i64 = dur / 3600;
    let minutes: i64 = (dur % 3600) / 60;
    let mut v: Vec<u8> = Vec::new();
    push_padded(&mut v, hours as u64, 2);
    v.push(58);
    push_padded(&mut v, minutes as u64, 2);
    proof {
        assert(v@ =~= spec_duration_text(dur as int));
    }
    string_from_ascii(v)
}

/// The one colon of `b` stands at `j`.
pub open spec fn spec_colon_split(b: Seq<u8>, j: int) -> bool {
    &&& 0 <= j < b.len()
    &&& b[j] == 58
    &&& forall|k: int| 0 <= k < b.len() && k != j ==> b[k] != 58
}

/// Whether `b` is `H:M` text: one colon, nonempty digit runs on both
/// sides, denoting `hours:minutes`.
pub open spec fn spec_hm_text(b: Seq<u8>, j: int) -> bool {
    &&& spec_colon_split(b, j)
    &&& spec_all_digits(b.take(j))
    &&& spec_all_digits(b.skip(j + 1))
    &&& b.take(j).len() >= 1
    &&& b.skip(j + 1).len() >= 1
}

/// The seconds `H:M` text denotes.
pub open spec fn spec_hm_secs(b: Seq<u8>, j: int) -> int {
    spec_dec_val(b.take(j)) * 3600 + spec_dec_val(b.skip(j + 1)) * 60
}

/// Whether the digit run is a `u64` numeral.
pub open spec fn spec_hm_part_ok(s: Seq<u8>) -> bool {
    spec_all_digits(s) && s.len() >= 1 && spec_dec_val(s) <= u64::MAX
}

/// The result a duration text with its single colon at `j` gets, in the
/// order the parts are examined: hours numeral, minutes numeral, hours
/// seconds, total seconds.
pub open spec fn spec_hm_outcome(b: Seq<u8>, j: int, r: Result<u64, &'static str>) -> bool {
    let h = b.take(j);
    let mn = b.skip(j + 1);
    if !spec_hm_part_ok(h) {
        r matches Err(m) && m@ == "Invalid hours value"@
    } else if !spec_hm_part_ok(mn) {
        r matches Err(m) && m@ == "Invalid minutes value"@
    } else if spec_dec_val(h) * 3600 > u64::MAX {
        r matches Err(m) && m@ == "Invalid hours value"@
    } else if spec_hm_secs(b, j) > u64::MAX {
        r matches Err(m) && m@ == "Invalid minutes value"@
    } else {
        r matches Ok(v) && v == spec_hm_secs(b, j)
    }
}

/// When no byte before or after a colon is another colon, that colon is
/// the one split point.
proof fn lemma_one_colon(b: Seq<u8>, j: int)
    requires
        0 <= j < b.len(),
        b[j] == 58,
        forall|k: int| 0 <= k < j ==> b[k] != 58,
        forall|k: int| j < k < b.len() ==> b[k] != 58,
    ensures
        spec_colon_split(b, j),
        forall|w: int| #[trigger] spec_colon_split(b, w) ==> w == j,
{
    assert forall|w: int| #[trigger] spec_colon_split(b, w) implies w == j by {
        if w != j {
            assert(b[w] != 58);
        }
    }
}

/// An in-range `H:M` reading has both parts as `u64` numerals within the
/// product bounds.
proof fn lemma_hm_parts(b: Seq<u8>, j: int)
    requires
        spec_hm_text(b, j),
        spec_hm_secs(b, j) <= u64::MAX,
    ensures
        spec_hm_part_ok(b.take(j)),
        spec_hm_part_ok(b.skip(j + 1)),
        spec_dec_val(b.take(j)) * 3600 <= u64::MAX,
{
    lemma_dec_val_nonneg(b.take(j));
    lemma_dec_val_nonneg(b.skip(j + 1));
    assert(spec_dec_val(b.take(j)) * 3600 >= spec_dec_val(b.take(j)));
    assert(spec_dec_val(b.skip(j + 1)) * 60 >= 0);
}

/// Parses a duration `HH:MM` into seconds. A text without exactly one
/// colon fails with the format message; with one colon, the hours and
/// minutes parts are examined in order and the error names the part that
/// failed; a text denoting seconds that fit in a `u64` yields them.
#[verifier::rlimit(100)]
pub fn parse_duration(duration_str: &str) -> (r: Result<u64, &'static str>)
    ensures
        ({
            let b = vstd::utf8::encode_utf8(duration_str@);
            &&& (r matches Ok(v) ==> exists|j: int|
                #[trigger] spec_hm_text(b, j) && v == spec_hm_secs(b, j))
            &&& ((forall|k: int| 0 <= k < b.len() ==> b[k] != 58) ==> (r matches Err(m) && m@
                == "Invalid duration format. Expected HH:MM"@))
            &&& (forall|j1: int, j2: int|
                #![trigger b[j1], b[j2]]
                0 <= j1 < j2 < b.len() && b[j1] == 58 && b[j2] == 58 ==> (r matches Err(m) && m@
                    == "Invalid duration format. Expected HH:MM"@))
            &&& (forall|j: int| #[trigger] spec_colon_split(b, j) ==> spec_hm_outcome(b, j, r))
        }),
{
    let b = duration_str.as_bytes_vec();
    let n = b.len();
    let (hpart, j) = match read_until(b.as_slice(), 0, 58) {
        Some(p) => p,
        None => {
            return Err("Invalid duration format. Expected HH:MM");
        },
    };
    let rest = slice_subrange(b.as_slice(), j + 1, n);
    proof {
        assert(rest@ =~= b@.skip(j + 1));
    }
    match read_until(rest, 0, 58) {
        Some(second) => {
            proof {
                assert(b@[j + 1 + second.1] == 58);
                assert forall|w: int| #[trigger] spec_colon_split(b@, w) implies false by {
                    if w != j {
                        assert(b@[w] != 58);
                    } else {
                        assert(b@[j + 1 + second.1] != 58);
                    }
                }
            }
            return Err("Invalid duration format. Expected HH:MM");
        },
        None => {},
    }
    proof {
        assert forall|k: int| j < k < b@.len() implies b@[k] != 58 by {
            assert(rest@[k - (j + 1)] == b@[k]);
        }
        lemma_one_colon(b@, j as int);
        assert forall|w: int|
            #[trigger] spec_hm_text(b@, w) && spec_hm_secs(b@, w) <= u64::MAX implies w
            == j as int && spec_hm_part_ok(b@.take(w)) && spec_hm_part_ok(b@.skip(w + 1))
            && spec_dec_val(b@.take(w)) * 3600 <= u64::MAX by {
            lemma_hm_parts(b@, w);
        }
    }
    let hours = match parse_u64_dec(hpart.as_slice()) {
        Some(h) => h,
        None => {
            return Err("Invalid hours value");
        },
    };
    let minutes = match parse_u64_dec(rest) {
        Some(m) => m,
        None => {
            return Err("Invalid minutes value");
        },
    };
    let hsecs = match hours.checked_mul(3600) {
        Some(x) => x,
        None => {
            return Err("Invalid hours value");
        },
    };
    match hsecs.checked_add(match minutes.checked_mul(60) {
        Some(x) => x,
        None => {
            proof {
                crate::numerals::lemma_dec_val_nonneg(hpart@);
                assert(spec_dec_val(b@.take(j as int)) * 3600 >= 0);
            }
            return Err("Invalid minutes value");
        },
    }) {
        Some(v) => {
            proof {
                assert(spec_hm_text(b@, j as int));
            }
            Ok(v)
        },
        None => Err("Invalid minutes value"),
    }
}

/// The zero-padded text of a value below the `w`-th power of ten: exactly
/// `w` digits whose value is the number itself.
pub proof fn lemma_zero_pad(n: nat, w: nat)
    requires
        w >= 1,
        n < spec_pow10(w),
    ensures
        spec_zero_pad(n, w).len() == w,
        spec_all_digits(spec_zero_pad(n, w)),
        spec_dec_val(spec_zero_pad(n, w)) == n,
{
    lemma_dec_digits_are_digits(n);
    lemma_dec_digits_len(n, w);
    lemma_dec_digits_val(n);
    let digits = spec_dec_digits(n);
    if digits.len() < w {
        let z = (w - digits.len()) as nat;
        let zeros = Seq::new(z, |i: int| 48u8);
        lemma_dec_val_leading_zeros(z, digits);
        assert forall|i: int|
            0 <= i < (zeros + digits).len() implies crate::numerals::spec_is_digit(
            #[trigger] (zeros + digits)[i],
        ) by {
            if i >= z {
                assert((zeros + digits)[i] == digits[i - z]);
            }
        }
    }
}

/// Where each segment of the `YYYY-MM-DD` form lies.
proof fn lemma_date_bytes_shape(d: DateTimeUtc)
    requires
        date_wf(d),
    ensures
        spec_date_bytes(d).len() == 10,
        spec_date_bytes(d).subrange(0, 4) == spec_zero_pad(d.year as nat, 4),
        spec_date_bytes(d)[4] == 45,
        spec_date_bytes(d).subrange(5, 7) == spec_zero_pad(d.month as nat, 2),
        spec_date_bytes(d)[7] == 45,
        spec_date_bytes(d).subrange(8, 10) == spec_zero_pad(d.day as nat, 2),
        spec_dec_val(spec_zero_pad(d.year as nat, 4)) == d.year,
        spec_dec_val(spec_zero_pad(d.month as nat, 2)) == d.month,
        spec_dec_val(spec_zero_pad(d.day as nat, 2)) == d.day,
        spec_all_digits(spec_zero_pad(d.year as nat, 4)),
        spec_all_digits(spec_zero_pad(d.month as nat, 2)),
        spec_all_digits(spec_zero_pad(d.day as nat, 2)),
{
    assert(spec_pow10(0nat) == 1);
    assert(spec_pow10(1nat) == 10);
    assert(spec_pow10(2nat) == 100);
    assert(spec_pow10(3nat) == 1000);
    assert(spec_pow10(4nat) == 10000);
    lemma_zero_pad(d.year as nat, 4);
    lemma_zero_pad(d.month as nat, 2);
    lemma_zero_pad(d.day as nat, 2);
    let b = spec_date_bytes(d);
    assert(b.subrange(0, 4) =~= spec_zero_pad(d.year as nat, 4));
    assert(b.subrange(5, 7) =~= spec_zero_pad(d.month as nat, 2));
    assert(b.subrange(8, 10) =~= spec_zero_pad(d.day as nat, 2));
}

/// Parses a date `YYYY-MM-DD` (fixed-width, zero-padded) into a datetime
/// at midnight. Accepts exactly the canonical date texts of in-range
/// dates: such a text parses to its date, anything else is refused.
#[verifier::rlimit(100)]
pub fn parse_date(date_str: &str) -> (r: Result<DateTimeUtc, &'static str>)
    ensures
        ({
            let b = vstd::utf8::encode_utf8(date_str@);
            &&& (r matches Ok(d) ==> date_wf(d) && d.hour == 0 && d.minute == 0 && d.second == 0
                && b == spec_date_bytes(d))
            &&& (forall|d: DateTimeUtc|
                date_wf(d) && d.hour == 0 && d.minute == 0 && d.second == 0 && b
                    == #[trigger] spec_date_bytes(d) ==> (r matches Ok(x) && x == d))
        }),
{
    let b = date_str.as_bytes_vec();
    if b.len() != 10 {
        proof {
            assert forall|d: DateTimeUtc|
                date_wf(d) && d.hour == 0 && d.minute == 0 && d.second == 0 && b@
                    == #[trigger] spec_date_bytes(d) implies false by {
                lemma_date_bytes_shape(d);
            }
        }
        return Err("invalid date");
    }
    if !(b[4] == 45 && b[7] == 45) {
        proof {
            assert forall|d: DateTimeUtc|
                date_wf(d) && d.hour == 0 && d.minute == 0 && d.second == 0 && b@
                    == #[trigger] spec_date_bytes(d) implies false by {
                lemma_date_bytes_shape(d);
            }
        }
        return Err("invalid date");
    }
    let ybytes = slice_subrange(b.as_slice(), 0, 4);
    let mbytes = slice_subrange(b.as_slice(), 5, 7);
    let dbytes = slice_subrange(b.as_slice(), 8, 10);
    let parsed = match (
        parse_u64_dec(ybytes),
        parse_u64_dec(mbytes),
        parse_u64_dec(dbytes),
    ) {
        (Some(y), Some(m), Some(dd)) => Some((y, m, dd)),
        _ => None,
    };
    let in_range = match parsed {
        Some((y, m, dd)) => 1 <= y && y <= 9999 && 1 <= m && m <= 12 && 1 <= dd && dd
            <= days_in_month(y as u32, m as u8) as u64,
        None => false,
    };
    let (y, m, dd) = match parsed {
        Some(p) if in_range => p,
        _ => {
            proof {
                assert forall|d: DateTimeUtc|
                    date_wf(d) && d.hour == 0 && d.minute == 0 && d.second == 0 && b@
                        == #[trigger] spec_date_bytes(d) implies false by {
                    lemma_date_bytes_shape(d);
                    assert(ybytes@ == spec_zero_pad(d.year as nat, 4));
                    assert(mbytes@ == spec_zero_pad(d.month as nat, 2));
                    assert(dbytes@ == spec_zero_pad(d.day as nat, 2));
                }
            }
            return Err("invalid date");
        },
    };
    let d = DateTimeUtc {
        year: y as u32,
        month: m as u8,
        day: dd as u8,
        hour: 0,
        minute: 0,
        second: 0,
    };
    // The parsed text must be the canonical zero-padded form.
    let canon = format_date(&d);
    let cb = canon.as_str().as_bytes_vec();
    if !bytes_eq(b.as_slice(), cb.as_slice()) {
        proof {
            assert forall|w: DateTimeUtc|
                date_wf(w) && w.hour == 0 && w.minute == 0 && w.second == 0 && b@
                    == #[trigger] spec_date_bytes(w) implies false by {
                lemma_date_bytes_shape(w);
                assert(ybytes@ == spec_zero_pad(w.year as nat, 4));
                assert(mbytes@ == spec_zero_pad(w.month as nat, 2));
                assert(dbytes@ == spec_zero_pad(w.day as nat, 2));
                assert(w == d);
            }
        }
        return Err("invalid date");
    }
    proof {
        assert forall|w: DateTimeUtc|
            date_wf(w) && w.hour == 0 && w.minute == 0 && w.second == 0 && b@
                == #[trigger] spec_date_bytes(w) implies w == d by {
            lemma_date_bytes_shape(w);
            assert(ybytes@ == spec_zero_pad(w.year as nat, 4));
            assert(mbytes@ == spec_zero_pad(w.month as nat, 2));
            assert(dbytes@ == spec_zero_pad(w.day as nat, 2));
        }
    }
    Ok(d)
}

} // verus!

//! PDF date strings (ISO 32000-1, section 7.9.4 "Dates").
//!
//! A PDF date looks like `D:YYYYMMDDHHmmSSOHH'mm'`, where `O` is the sign of
//! the offset of local time from UTC (`+`, `-`, or `Z` for UTC itself). Every
//! component after the year is optional: a missing month or day reads as 1, a
//! missing hour, minute or second as 0, and a missing offset as UTC.
use vstd::prelude::*;
use vstd::string::StringSliceAdditionalSpecFns;

use crate::calendar::{
    civil_date_accepted, civil_day_number, days_before_month, days_before_year, days_in_month,
    days_in_year, lemma_civil_closed_form, lemma_civil_day_number_bounds,
};

verus! {

/// True when `b` is one of the ASCII bytes `0` to `9`.
pub open spec fn is_digit_byte(b: u8) -> bool {
    48 <= b <= 57
}

/// The decimal number written by the `len` bytes of `b` that start at `start`,
/// or `None` when that range leaves `b` or holds a byte that is not a digit.
pub open spec fn digits_value(b: Seq<u8>, start: int, len: nat) -> Option<int>
    decreases len,
{
    if start < 0 || start + len > b.len() {
        None
    } else if len == 0 {
        Some(0)
    } else {
        match digits_value(b, start, (len - 1) as nat) {
            Some(v) => if is_digit_byte(b[start + len - 1]) {
                Some(v * 10 + (b[start + len - 1] - 48))
            } else {
                None
            },
            None => None,
        }
    }
}

/// The field `b[start..start + len]` read as a number, or `default` when it
/// cannot be read.
pub open spec fn field_or(b: Seq<u8>, start: int, len: nat, default: int) -> int {
    match digits_value(b, start, len) {
        Some(v) => v,
        None => default,
    }
}

/// The minutes of an offset, read from `p`, just after its two hour digits:
/// an optional apostrophe, then either nothing or two minute digits, which
/// may be followed by one closing apostrophe and must end the string.
pub open spec fn offset_minutes(b: Seq<u8>, p: int) -> Option<int> {
    let q = if 0 <= p < b.len() && b[p] == 39 {
        p + 1
    } else {
        p
    };
    if q >= b.len() {
        Some(0)
    } else {
        match digits_value(b, q, 2) {
            None => None,
            Some(mm) => if q + 2 == b.len() || (q + 3 == b.len() && b[q + 2] == 39) {
                Some(mm)
            } else {
                None
            },
        }
    }
}

/// The size of an offset whose two hour digits start at `p`, in seconds.
pub open spec fn offset_magnitude(b: Seq<u8>, p: int) -> Option<int> {
    match digits_value(b, p, 2) {
        None => None,
        Some(hh) => match offset_minutes(b, p + 2) {
            None => None,
            Some(mm) => Some(hh * 3600 + mm * 60),
        },
    }
}

/// The offset of local time from UTC, in seconds, that stands at `start` and
/// ends the string: nothing at all means UTC; `Z` means UTC, alone or with a
/// zero offset written after it; `+` or `-` must be followed by two hour
/// digits, then optionally by an apostrophe and two minute digits, and
/// optionally by a closing apostrophe. Anything else there is not a date.
pub open spec fn offset_seconds(b: Seq<u8>, start: int) -> Option<int> {
    if start < 0 || start >= b.len() {
        Some(0)
    } else if b[start] == 90 {
        if start + 1 == b.len() || offset_magnitude(b, start + 1) == Some(0int) {
            Some(0)
        } else {
            None
        }
    } else if b[start] == 43 || b[start] == 45 {
        match offset_magnitude(b, start + 1) {
            None => None,
            Some(total) => Some(if b[start] == 45 {
                -total
            } else {
                total
            }),
        }
    } else {
        None
    }
}

/// A two-digit field at `start` is either missing (the string ends before
/// it) or is two ASCII digits.
pub open spec fn field_well_formed(b: Seq<u8>, start: int) -> bool {
    start >= b.len() || digits_value(b, start, 2) is Some
}

/// The bytes of a date string once a leading `D:` is dropped, if there is one.
pub open spec fn strip_date_prefix(b: Seq<u8>) -> Seq<u8> {
    if b.len() >= 2 && b[0] == 68 && b[1] == 58 {
        b.subrange(2, b.len() as int)
    } else {
        b
    }
}

/// Seconds since 1970-01-01 00:00:00 UTC of the date whose bytes (without the
/// `D:` prefix) are `raw`, or `None` when `raw` is not a PDF date: fewer than
/// four bytes, a year that is not four digits, a month, day, hour, minute or
/// second that is there but is not two digits, an offset that is not well
/// formed or is followed by more text, or a month outside 1..=12 or a day
/// outside 1..=31.
pub open spec fn pdf_date_seconds(raw: Seq<u8>) -> Option<int> {
    if raw.len() < 4 {
        None
    } else {
        match digits_value(raw, 0, 4) {
            None => None,
            Some(year) => if !(field_well_formed(raw, 4) && field_well_formed(raw, 6)
                && field_well_formed(raw, 8) && field_well_formed(raw, 10) && field_well_formed(
                raw,
                12,
            )) {
                None
            } else {
                let month = field_or(raw, 4, 2, 1);
                let day = field_or(raw, 6, 2, 1);
                let hour = field_or(raw, 8, 2, 0);
                let minute = field_or(raw, 10, 2, 0);
                let second = field_or(raw, 12, 2, 0);
                match offset_seconds(raw, 14) {
                    None => None,
                    Some(tz) => if civil_date_accepted(month, day) {
                        Some(
                            civil_day_number(year, month, day) * 86400 + hour * 3600 + minute * 60
                                + second - tz,
                        )
                    } else {
                        None
                    },
                }
            },
        }
    }
}

/// An optional machine integer seen as an optional mathematical integer.
pub open spec fn opt_i64_as_int(o: Option<i64>) -> Option<int> {
    match o {
        Some(v) => Some(v as int),
        None => None,
    }
}

proof fn lemma_digits_value_bound(b: Seq<u8>, start: int, len: nat)
    ensures
        digits_value(b, start, len) matches Some(v) ==> 0 <= v < pow10(len),
    decreases len,
{
    if len > 0 && !(start < 0 || start + len > b.len()) {
        lemma_digits_value_bound(b, start, (len - 1) as nat);
    }
}

/// Ten to the power `n`.
pub open spec fn pow10(n: nat) -> int
    decreases n,
{
    if n == 0 {
        1
    } else {
        10 * pow10((n - 1) as nat)
    }
}

/// Reads the `len` decimal digits of `bytes` that start at `start`.
fn parse_digits(bytes: &[u8], start: usize, len: usize) -> (r: Option<u32>)
    requires
        len <= 9,
    ensures
        opt_u32_as_int(r) == digits_value(bytes@, start as int, len as nat),
{
    if start > bytes.len() || len > bytes.len() - start {
        return None;
    }
    let mut value: u32 = 0;
    let mut i: usize = 0;
    while i < len
        invariant
            i <= len <= 9,
            start + len <= bytes.len(),
            digits_value(bytes@, start as int, i as nat) == Some(value as int),
            value < pow10(i as nat),
        decreases len - i,
    {
        let b = bytes[start + i];
        if !(b >= 48 && b <= 57) {
            proof {
                lemma_digits_value_none_extends(bytes@, start as int, (i + 1) as nat, len as nat);
            }
            return None;
        }
        proof {
            assert(pow10((i + 1) as nat) == 10 * pow10(i as nat));
            reveal_with_fuel(pow10, 10);
            lemma_pow10_mono(i as nat, 8);
        }
        value = value * 10 + (b - 48) as u32;
        i = i + 1;
    }
    Some(value)
}

/// An optional `u32` seen as an optional mathematical integer.
pub open spec fn opt_u32_as_int(o: Option<u32>) -> Option<int> {
    match o {
        Some(v) => Some(v as int),
        None => None,
    }
}

proof fn lemma_pow10_mono(a: nat, b: nat)
    requires
        a <= b,
    ensures
        pow10(a) <= pow10(b),
        pow10(a) >= 1,
    decreases b,
{
    if b > a {
        lemma_pow10_mono(a, (b - 1) as nat);
    } else if a > 0 {
        lemma_pow10_mono((a - 1) as nat, (a - 1) as nat);
    }
}

proof fn lemma_digits_value_none_extends(b: Seq<u8>, start: int, k: nat, len: nat)
    requires
        k <= len,
        digits_value(b, start, k) is None,
    ensures
        digits_value(b, start, len) is None,
    decreases len - k,
{
    if k < len {
        assert(digits_value(b, start, (k + 1) as nat) is None);
        lemma_digits_value_none_extends(b, start, (k + 1) as nat, len);
    }
}

/// Reads the minutes of an offset from `p`, just after its hour digits.
fn parse_offset_minutes(bytes: &[u8], p: usize) -> (r: Option<u32>)
    ensures
        opt_u32_as_int(r) == offset_minutes(bytes@, p as int),
        r matches Some(m) ==> m < 100,
{
    let q = if p < bytes.len() && bytes[p] == 39 {
        p + 1
    } else {
        p
    };
    if q >= bytes.len() {
        return Some(0);
    }
    let mm = match parse_digits(bytes, q, 2) {
        Some(v) => v,
        None => return None,
    };
    proof {
        lemma_digits_value_bound(bytes@, q as int, 2);
        reveal_with_fuel(pow10, 3);
    }
    let rest = bytes.len() - q;
    if rest == 2 || (rest == 3 && bytes[q + 2] == 39) {
        Some(mm)
    } else {
        None
    }
}

/// Reads the size of an offset whose hour digits start at `p`, in seconds.
fn parse_offset_magnitude(bytes: &[u8], p: usize) -> (r: Option<i64>)
    ensures
        opt_i64_as_int(r) == offset_magnitude(bytes@, p as int),
        r matches Some(t) ==> 0 <= t <= 400000,
{
    if p > bytes.len() {
        return None;
    }
    let hours = match parse_digits(bytes, p, 2) {
        Some(h) => h,
        None => return None,
    };
    proof {
        lemma_digits_value_bound(bytes@, p as int, 2);
        reveal_with_fuel(pow10, 3);
    }
    let minutes = match parse_offset_minutes(bytes, p + 2) {
        Some(m) => m,
        None => return None,
    };
    Some(hours as i64 * 3600 + minutes as i64 * 60)
}

/// Reads the offset from UTC that stands at `start` and ends the string, in
/// seconds.
fn parse_offset(bytes: &[u8], start: usize) -> (r: Option<i64>)
    ensures
        opt_i64_as_int(r) == offset_seconds(bytes@, start as int),
        r matches Some(t) ==> -400000 <= t <= 400000,
{
    if start >= bytes.len() {
        return Some(0);
    }
    let marker = bytes[start];
    if marker == 90 {
        if start + 1 == bytes.len() {
            return Some(0);
        }
        match parse_offset_magnitude(bytes, start + 1) {
            Some(t) => if t == 0 {
                Some(0)
            } else {
                None
            },
            None => None,
        }
    } else if marker == 43 || marker == 45 {
        match parse_offset_magnitude(bytes, start + 1) {
            Some(t) => Some(if marker == 45 {
                -t
            } else {
                t
            }),
            None => None,
        }
    } else {
        None
    }
}

/// Reads the two-digit field at `start`: `default` when the string ends
/// before it, `None` when it is there but is not two digits.
fn parse_field(bytes: &[u8], start: usize, default: u32) -> (r: Option<u32>)
    ensures
        r matches Some(v) ==> v < 100 || v == default,
        r is Some <==> field_well_formed(bytes@, start as int),
        r matches Some(v) ==> v == field_or(bytes@, start as int, 2, default as int),
{
    if start >= bytes.len() {
        proof {
            lemma_digits_value_out_of_range(bytes@, start as int, 2);
        }
        return Some(default);
    }
    let r = parse_digits(bytes, start, 2);
    proof {
        lemma_digits_value_bound(bytes@, start as int, 2);
        reveal_with_fuel(pow10, 3);
    }
    r
}

/// Parses a PDF date string into seconds since the Unix epoch.
///
/// Returns `None` when the string does not follow the PDF date grammar. The
/// leading `D:` is optional; missing time components read as zero and a
/// missing offset as UTC. Only the bytes of the string matter.
pub fn parse_pdf_date_to_epoch(s: &str) -> (r: Option<i64>)
    ensures
        opt_i64_as_int(r) == pdf_date_seconds(strip_date_prefix(s.spec_bytes())),
{
    let all = s.as_bytes();
    let raw: &[u8] = if all.len() >= 2 && all[0] == 68 && all[1] == 58 {
        &all[2..all.len()]
    } else {
        all
    };
    assert(raw@ == strip_date_prefix(s.spec_bytes()));
    if raw.len() < 4 {
        return None;
    }
    let year = match parse_digits(raw, 0, 4) {
        Some(y) => y,
        None => return None,
    };
    let month = match parse_field(raw, 4, 1) {
        Some(v) => v,
        None => return None,
    };
    let day = match parse_field(raw, 6, 1) {
        Some(v) => v,
        None => return None,
    };
    let hour = match parse_field(raw, 8, 0) {
        Some(v) => v,
        None => return None,
    };
    let minute = match parse_field(raw, 10, 0) {
        Some(v) => v,
        None => return None,
    };
    let second = match parse_field(raw, 12, 0) {
        Some(v) => v,
        None => return None,
    };
    proof {
        reveal_with_fuel(pow10, 5);
        lemma_digits_value_bound(raw@, 0, 4);
    }

    // The offset starts right after the seconds field and ends the string.
    let tz_offset = match parse_offset(raw, 14) {
        Some(t) => t,
        None => return None,
    };

    let days = match days_from_civil(year, month, day) {
        Some(d) => d,
        None => return None,
    };
    proof {
        lemma_civil_day_number_bounds(year as int, month as int, day as int);
    }
    let seconds_utc = days * 86_400 + hour as i64 * 3600 + minute as i64 * 60 + second as i64;

    // A PDF offset is local time minus UTC: subtracting it turns the local
    // wall-clock time into UTC.
    Some(seconds_utc - tz_offset)
}

/// Days from 1970-01-01 to the given date, after Howard Hinnant's
/// "date algorithms" (public domain). Only the month and day ranges are
/// checked; a day past the end of its month runs on into the next month.
fn days_from_civil(year: u32, month: u32, day: u32) -> (r: Option<i64>)
    ensures
        match r {
            Some(v) => civil_date_accepted(month as int, day as int) && v == civil_day_number(
                year as int,
                month as int,
                day as int,
            ),
            None => !civil_date_accepted(month as int, day as int),
        },
{
    if !(1 <= month && month <= 12) || !(1 <= day && day <= 31) {
        return None;
    }
    let y: i64 = if month <= 2 {
        year as i64 - 1
    } else {
        year as i64
    };
    // The divisor is not zero and the quotient is small, so this never fails.
    let era: i64 = match y.checked_div_euclid(400) {
        Some(q) => q,
        None => return None,
    };
    assert(0 <= y - era * 400 < 400);
    let yoe: u64 = (y - era * 400) as u64;
    let m: i64 = month as i64;
    let mp: i64 = if m > 2 {
        m - 3
    } else {
        m + 9
    };
    let doy: u64 = ((153 * mp + 2) / 5 + day as i64 - 1) as u64;
    let doe: u64 = yoe * 365 + yoe / 4 - yoe / 100 + doy;
    proof {
        lemma_civil_closed_form(year as int, month as int, day as int, era as int, yoe as int);
    }
    Some(era * 146_097 + doe as i64 - 719_468)
}

proof fn lemma_digits_value_prefix(b: Seq<u8>, c: Seq<u8>, start: int, len: nat)
    requires
        0 <= start,
        start + len <= b.len(),
    ensures
        digits_value(b + c, start, len) == digits_value(b, start, len),
    decreases len,
{
    if len > 0 {
        lemma_digits_value_prefix(b, c, start, (len - 1) as nat);
        assert((b + c)[start + len - 1] == b[start + len - 1]);
    }
}

proof fn lemma_digits_value_out_of_range(b: Seq<u8>, start: int, len: nat)
    requires
        start + len > b.len(),
    ensures
        digits_value(b, start, len) is None,
{
}

/// The leading `D:` is optional: a date string reads the same with or
/// without it (when it does not already start with `D:`).
pub proof fn law_date_prefix_optional(b: Seq<u8>)
    requires
        !(b.len() >= 2 && b[0] == 68 && b[1] == 58),
    ensures
        pdf_date_seconds(strip_date_prefix(seq![68u8, 58u8] + b)) == pdf_date_seconds(
            strip_date_prefix(b),
        ),
{
    let p = seq![68u8, 58u8] + b;
    assert(p.subrange(2, p.len() as int) =~= b);
}

/// The digits that stand in for components left out of a date: month and day
/// 01, hour, minute and second 00.
pub open spec fn default_components() -> Seq<u8> {
    seq![48u8, 49u8, 48u8, 49u8, 48u8, 48u8, 48u8, 48u8, 48u8, 48u8]
}

/// A date cut short after its year, month, day, hour or minute reads the same
/// as the date with the missing components written out at their defaults
/// (month and day 1, time 00:00:00, UTC).
pub proof fn law_missing_components_default(b: Seq<u8>)
    requires
        b.len() == 4 || b.len() == 6 || b.len() == 8 || b.len() == 10 || b.len() == 12,
    ensures
        pdf_date_seconds(b) == pdf_date_seconds(
            b + default_components().subrange(b.len() - 4, 10),
        ),
{
    let tail = default_components().subrange(b.len() - 4, 10);
    let full = b + tail;
    assert(full.len() == 14);
    reveal_with_fuel(digits_value, 3);
    lemma_digits_value_prefix(b, tail, 0, 4);
    let fields: Seq<(int, int)> = seq![(4int, 1int), (6, 1), (8, 0), (10, 0), (12, 0)];
    assert forall|k: int| 0 <= k < 5 implies field_or(b, #[trigger] fields[k].0, 2, fields[k].1)
        == field_or(full, fields[k].0, 2, fields[k].1) by {
        let start = fields[k].0;
        if start + 2 <= b.len() {
            lemma_digits_value_prefix(b, tail, start, 2);
        } else {
            lemma_digits_value_out_of_range(b, start, 2);
            assert(full[start] == tail[start - b.len()]);
            assert(full[start + 1] == tail[start + 1 - b.len()]);
        }
    }
    assert(fields[0].0 == 4 && fields[1].0 == 6 && fields[2].0 == 8 && fields[3].0 == 10
        && fields[4].0 == 12);
}

/// A full date-time followed by `Z` reads the same as without it: both are UTC.
pub proof fn law_utc_marker(b: Seq<u8>)
    requires
        b.len() == 14,
    ensures
        pdf_date_seconds(b + seq![90u8]) == pdf_date_seconds(b),
{
    let c = seq![90u8];
    lemma_digits_value_prefix(b, c, 0, 4);
    lemma_digits_value_prefix(b, c, 4, 2);
    lemma_digits_value_prefix(b, c, 6, 2);
    lemma_digits_value_prefix(b, c, 8, 2);
    lemma_digits_value_prefix(b, c, 10, 2);
    lemma_digits_value_prefix(b, c, 12, 2);
    assert((b + c)[14] == 90);
}

/// The time a full date-time with the offset `+HH'MM'` names is that wall
/// time in UTC less the offset; with `-HH'MM'`, plus the offset.
pub proof fn law_offset_converts_to_utc(b: Seq<u8>, sign: u8, h1: u8, h2: u8, m1: u8, m2: u8)
    requires
        b.len() == 14,
        sign == 43 || sign == 45,
        is_digit_byte(h1) && is_digit_byte(h2) && is_digit_byte(m1) && is_digit_byte(m2),
    ensures
        ({
            let offset = ((h1 - 48) * 10 + (h2 - 48)) * 3600 + ((m1 - 48) * 10 + (m2 - 48)) * 60;
            let signed = if sign == 43 {
                offset
            } else {
                -offset
            };
            pdf_date_seconds(b + seq![sign, h1, h2, 39u8, m1, m2, 39u8]) == match pdf_date_seconds(
                b,
            ) {
                Some(t) => Some(t - signed),
                None => None,
            }
        }),
{
    let c = seq![sign, h1, h2, 39u8, m1, m2, 39u8];
    let full = b + c;
    lemma_digits_value_prefix(b, c, 0, 4);
    lemma_digits_value_prefix(b, c, 4, 2);
    lemma_digits_value_prefix(b, c, 6, 2);
    lemma_digits_value_prefix(b, c, 8, 2);
    lemma_digits_value_prefix(b, c, 10, 2);
    lemma_digits_value_prefix(b, c, 12, 2);
    assert(full[14] == sign && full[15] == h1 && full[16] == h2 && full[17] == 39);
    assert(full[18] == m1 && full[19] == m2);
    reveal_with_fuel(digits_value, 3);
    assert(full.len() == 21 && full[20] == 39);
}

/// A full date-time followed by more bytes reads as the date-time shifted by
/// the offset those bytes spell.
proof fn lemma_date_then_offset(b: Seq<u8>, c: Seq<u8>)
    requires
        b.len() == 14,
    ensures
        pdf_date_seconds(b + c) == match (pdf_date_seconds(b), offset_seconds(b + c, 14)) {
            (Some(t), Some(tz)) => Some(t - tz),
            _ => None,
        },
{
    lemma_digits_value_prefix(b, c, 0, 4);
    lemma_digits_value_prefix(b, c, 4, 2);
    lemma_digits_value_prefix(b, c, 6, 2);
    lemma_digits_value_prefix(b, c, 8, 2);
    lemma_digits_value_prefix(b, c, 10, 2);
    lemma_digits_value_prefix(b, c, 12, 2);
}

/// The time of the date-time `b` read in UTC, moved back by `d` seconds.
pub open spec fn shifted_time(b: Seq<u8>, d: int) -> Option<int> {
    match pdf_date_seconds(b) {
        Some(t) => Some(t - d),
        None => None,
    }
}

/// The offset of a full date-time may be written `+HH'mm'`, `+HH'mm`,
/// `+HHmm` or `+HHmm'` (and the same with `-`): all name the same time, the
/// wall time less the offset for `+` and plus it for `-`. Hours alone,
/// `+HH` or `+HH'`, mean zero minutes.
pub proof fn law_offset_forms_agree(b: Seq<u8>, sign: u8, h1: u8, h2: u8, m1: u8, m2: u8)
    requires
        b.len() == 14,
        sign == 43 || sign == 45,
        is_digit_byte(h1) && is_digit_byte(h2) && is_digit_byte(m1) && is_digit_byte(m2),
    ensures
        ({
            let hours = (h1 - 48) * 10 + (h2 - 48);
            let minutes = (m1 - 48) * 10 + (m2 - 48);
            let full = if sign == 43 {
                hours * 3600 + minutes * 60
            } else {
                -(hours * 3600 + minutes * 60)
            };
            let whole_hours = if sign == 43 {
                hours * 3600
            } else {
                -(hours * 3600)
            };
            &&& pdf_date_seconds(b + seq![sign, h1, h2, 39u8, m1, m2, 39u8]) == shifted_time(b, full)
            &&& pdf_date_seconds(b + seq![sign, h1, h2, 39u8, m1, m2]) == shifted_time(b, full)
            &&& pdf_date_seconds(b + seq![sign, h1, h2, m1, m2]) == shifted_time(b, full)
            &&& pdf_date_seconds(b + seq![sign, h1, h2, m1, m2, 39u8]) == shifted_time(b, full)
            &&& pdf_date_seconds(b + seq![sign, h1, h2]) == shifted_time(b, whole_hours)
            &&& pdf_date_seconds(b + seq![sign, h1, h2, 39u8]) == shifted_time(b, whole_hours)
        }),
{
    lemma_offset_form_quoted(b, sign, h1, h2, m1, m2);
    lemma_offset_form_half_quoted(b, sign, h1, h2, m1, m2);
    lemma_offset_form_plain(b, sign, h1, h2, m1, m2);
    lemma_offset_form_plain_quoted(b, sign, h1, h2, m1, m2);
    lemma_offset_form_hours(b, sign, h1, h2);
}

/// The signed size of the offset `sign`, hours `h1 h2`, minutes `m1 m2`.
spec fn signed_offset(sign: u8, h1: u8, h2: u8, m1: u8, m2: u8) -> int {
    let t = ((h1 - 48) * 10 + (h2 - 48)) * 3600 + ((m1 - 48) * 10 + (m2 - 48)) * 60;
    if sign == 43 {
        t
    } else {
        -t
    }
}

proof fn lemma_offset_form_quoted(b: Seq<u8>, sign: u8, h1: u8, h2: u8, m1: u8, m2: u8)
    requires
        b.len() == 14,
        sign == 43 || sign == 45,
        is_digit_byte(h1) && is_digit_byte(h2) && is_digit_byte(m1) && is_digit_byte(m2),
    ensures
        offset_seconds(b + seq![sign, h1, h2, 39u8, m1, m2, 39u8], 14) == Some(
            signed_offset(sign, h1, h2, m1, m2),
        ),
        pdf_date_seconds(b + seq![sign, h1, h2, 39u8, m1, m2, 39u8]) == shifted_time(b, signed_offset(sign, h1, h2, m1, m2)),
{
    lemma_date_then_offset(b, seq![sign, h1, h2, 39u8, m1, m2, 39u8]);
    let f = b + seq![sign, h1, h2, 39u8, m1, m2, 39u8];
    assert(f[14] == sign && f[15] == h1 && f[16] == h2 && f[17] == 39 && f[18] == m1 && f[19]
        == m2 && f[20] == 39 && f.len() == 21);
    reveal_with_fuel(digits_value, 3);
}

proof fn lemma_offset_form_half_quoted(b: Seq<u8>, sign: u8, h1: u8, h2: u8, m1: u8, m2: u8)
    requires
        b.len() == 14,
        sign == 43 || sign == 45,
        is_digit_byte(h1) && is_digit_byte(h2) && is_digit_byte(m1) && is_digit_byte(m2),
    ensures
        offset_seconds(b + seq![sign, h1, h2, 39u8, m1, m2], 14) == Some(
            signed_offset(sign, h1, h2, m1, m2),
        ),
        pdf_date_seconds(b + seq![sign, h1, h2, 39u8, m1, m2]) == shifted_time(b, signed_offset(sign, h1, h2, m1, m2)),
{
    lemma_date_then_offset(b, seq![sign, h1, h2, 39u8, m1, m2]);
    let f = b + seq![sign, h1, h2, 39u8, m1, m2];
    assert(f[14] == sign && f[15] == h1 && f[16] == h2 && f[17] == 39 && f[18] == m1 && f[19]
        == m2 && f.len() == 20);
    reveal_with_fuel(digits_value, 3);
}

proof fn lemma_offset_form_plain(b: Seq<u8>, sign: u8, h1: u8, h2: u8, m1: u8, m2: u8)
    requires
        b.len() == 14,
        sign == 43 || sign == 45,
        is_digit_byte(h1) && is_digit_byte(h2) && is_digit_byte(m1) && is_digit_byte(m2),
    ensures
        offset_seconds(b + seq![sign, h1, h2, m1, m2], 14) == Some(
            signed_offset(sign, h1, h2, m1, m2),
        ),
        pdf_date_seconds(b + seq![sign, h1, h2, m1, m2]) == shifted_time(b, signed_offset(sign, h1, h2, m1, m2)),
{
    lemma_date_then_offset(b, seq![sign, h1, h2, m1, m2]);
    let f = b + seq![sign, h1, h2, m1, m2];
    assert(f[14] == sign && f[15] == h1 && f[16] == h2 && f[17] == m1 && f[18] == m2 && f.len()
        == 19);
    reveal_with_fuel(digits_value, 3);
}

proof fn lemma_offset_form_plain_quoted(b: Seq<u8>, sign: u8, h1: u8, h2: u8, m1: u8, m2: u8)
    requires
        b.len() == 14,
        sign == 43 || sign == 45,
        is_digit_byte(h1) && is_digit_byte(h2) && is_digit_byte(m1) && is_digit_byte(m2),
    ensures
        offset_seconds(b + seq![sign, h1, h2, m1, m2, 39u8], 14) == Some(
            signed_offset(sign, h1, h2, m1, m2),
        ),
        pdf_date_seconds(b + seq![sign, h1, h2, m1, m2, 39u8]) == shifted_time(b, signed_offset(sign, h1, h2, m1, m2)),
{
    lemma_date_then_offset(b, seq![sign, h1, h2, m1, m2, 39u8]);
    let f = b + seq![sign, h1, h2, m1, m2, 39u8];
    assert(f[14] == sign && f[15] == h1 && f[16] == h2 && f[17] == m1 && f[18] == m2 && f[19]
        == 39 && f.len() == 20);
    reveal_with_fuel(digits_value, 3);
}

proof fn lemma_offset_form_hours(b: Seq<u8>, sign: u8, h1: u8, h2: u8)
    requires
        b.len() == 14,
        sign == 43 || sign == 45,
        is_digit_byte(h1) && is_digit_byte(h2),
    ensures
        offset_seconds(b + seq![sign, h1, h2], 14) == Some(signed_offset(sign, h1, h2, 48, 48)),
        offset_seconds(b + seq![sign, h1, h2, 39u8], 14) == Some(
            signed_offset(sign, h1, h2, 48, 48),
        ),
        pdf_date_seconds(b + seq![sign, h1, h2]) == shifted_time(b, signed_offset(sign, h1, h2, 48, 48)),
        pdf_date_seconds(b + seq![sign, h1, h2, 39u8]) == shifted_time(b, signed_offset(sign, h1, h2, 48, 48)),
{
    lemma_date_then_offset(b, seq![sign, h1, h2]);
    lemma_date_then_offset(b, seq![sign, h1, h2, 39u8]);
    let f = b + seq![sign, h1, h2];
    let g = b + seq![sign, h1, h2, 39u8];
    assert(f[14] == sign && f[15] == h1 && f[16] == h2 && f.len() == 17);
    assert(g[14] == sign && g[15] == h1 && g[16] == h2 && g[17] == 39 && g.len() == 18);
    reveal_with_fuel(digits_value, 3);
}

/// True when `a` is a full date-time `YYYYMMDDHHmmSS` of fourteen ASCII digits
/// that names a real moment: a month in 1..=12, a day within its month, an
/// hour of at most 23 and a minute and second of at most 59.
pub open spec fn is_valid_date_time(a: Seq<u8>) -> bool {
    &&& a.len() == 14
    &&& forall|i: int| 0 <= i < 14 ==> is_digit_byte(#[trigger] a[i])
    &&& 1 <= field_or(a, 4, 2, 0) <= 12
    &&& 1 <= field_or(a, 6, 2, 0) <= days_in_month(field_or(a, 0, 4, 0), field_or(a, 4, 2, 0))
    &&& field_or(a, 8, 2, 0) <= 23
    &&& field_or(a, 10, 2, 0) <= 59
    &&& field_or(a, 12, 2, 0) <= 59
}

/// The fourteen digits of a date-time read as one decimal number. Strings of
/// the same length made of digits compare as text the way these numbers
/// compare.
pub open spec fn date_time_number(a: Seq<u8>) -> int {
    field_or(a, 0, 14, 0)
}

proof fn lemma_digits_value_all_digits(b: Seq<u8>, start: int, len: nat)
    requires
        0 <= start,
        start + len <= b.len(),
        forall|i: int| start <= i < start + len ==> is_digit_byte(#[trigger] b[i]),
    ensures
        digits_value(b, start, len) is Some,
    decreases len,
{
    if len > 0 {
        lemma_digits_value_all_digits(b, start, (len - 1) as nat);
        assert(is_digit_byte(b[start + len - 1]));
    }
}

proof fn lemma_digits_value_append_two(b: Seq<u8>, start: int, n: nat)
    requires
        0 <= start,
        start + n + 2 <= b.len(),
    ensures
        digits_value(b, start, n + 2) == match (
            digits_value(b, start, n),
            digits_value(b, start + n, 2),
        ) {
            (Some(x), Some(y)) => Some(x * 100 + y),
            _ => None,
        },
{
    assert(((n + 2) - 1) as nat == n + 1);
    assert(((n + 1) - 1) as nat == n);
    reveal_with_fuel(digits_value, 3);
}

proof fn lemma_digits_value_injective(a: Seq<u8>, b: Seq<u8>, start: int, len: nat)
    requires
        digits_value(a, start, len) is Some,
        digits_value(a, start, len) == digits_value(b, start, len),
    ensures
        forall|i: int| start <= i < start + len ==> #[trigger] a[i] == b[i],
    decreases len,
{
    if len > 0 {
        let va = digits_value(a, start, (len - 1) as nat);
        let vb = digits_value(b, start, (len - 1) as nat);
        lemma_digits_value_bound(a, start, (len - 1) as nat);
        lemma_digits_value_bound(b, start, (len - 1) as nat);
        let x = digits_value(a, start, len)->0;
        assert(va is Some && vb is Some);
        let da = a[start + len - 1] - 48;
        let db = b[start + len - 1] - 48;
        assert(x == va->0 * 10 + da && x == vb->0 * 10 + db);
        assert(va->0 == x / 10 && vb->0 == x / 10);
        lemma_digits_value_injective(a, b, start, (len - 1) as nat);
    }
}

proof fn lemma_days_before_year_step(y: int)
    ensures
        days_before_year(y + 1) == days_before_year(y) + days_in_year(y),
{
}

proof fn lemma_days_before_year_grows(y1: int, y2: int)
    requires
        y1 < y2,
    ensures
        days_before_year(y1) + days_in_year(y1) <= days_before_year(y2),
    decreases y2 - y1,
{
    lemma_days_before_year_step(y1);
    if y1 + 1 < y2 {
        lemma_days_before_year_grows(y1 + 1, y2);
    }
}

proof fn lemma_days_before_month_grows(y: int, m1: int, m2: int)
    requires
        1 <= m1 < m2,
    ensures
        days_before_month(y, m1) + days_in_month(y, m1) <= days_before_month(y, m2),
    decreases m2 - m1,
{
    if m1 + 1 < m2 {
        lemma_days_before_month_grows(y, m1, m2 - 1);
    }
}

/// The day of the year of a valid date lies within its year.
proof fn lemma_day_of_year_range(y: int, m: int, d: int)
    requires
        1 <= m <= 12,
        1 <= d <= days_in_month(y, m),
    ensures
        0 <= days_before_month(y, m) + d - 1 < days_in_year(y),
{
    lemma_days_before_month_grows(y, m, 13);
    if m > 1 {
        lemma_days_before_month_grows(y, 1, m);
    }
    reveal_with_fuel(days_before_month, 13);
}

/// `(y1, m1, d1)` comes before `(y2, m2, d2)`, year first.
spec fn date_before(y1: int, m1: int, d1: int, y2: int, m2: int, d2: int) -> bool {
    y1 < y2 || (y1 == y2 && (m1 < m2 || (m1 == m2 && d1 < d2)))
}

proof fn lemma_day_number_order(y1: int, m1: int, d1: int, y2: int, m2: int, d2: int)
    requires
        1 <= m1 <= 12,
        1 <= d1 <= days_in_month(y1, m1),
        1 <= m2 <= 12,
        1 <= d2 <= days_in_month(y2, m2),
        date_before(y1, m1, d1, y2, m2, d2),
    ensures
        civil_day_number(y1, m1, d1) < civil_day_number(y2, m2, d2),
{
    lemma_day_of_year_range(y1, m1, d1);
    lemma_day_of_year_range(y2, m2, d2);
    if y1 < y2 {
        lemma_days_before_year_grows(y1, y2);
    } else if m1 < m2 {
        lemma_days_before_month_grows(y1, m1, m2);
    }
}

/// The fields of a date-time, year first.
spec fn moment_fields(a: Seq<u8>) -> (int, int, int, int, int, int) {
    (
        field_or(a, 0, 4, 0),
        field_or(a, 4, 2, 0),
        field_or(a, 6, 2, 0),
        field_or(a, 8, 2, 0),
        field_or(a, 10, 2, 0),
        field_or(a, 12, 2, 0),
    )
}

/// Seconds since the epoch of a date-time given by its fields, read as UTC.
spec fn moment_seconds(t: (int, int, int, int, int, int)) -> int {
    civil_day_number(t.0, t.1, t.2) * 86400 + t.3 * 3600 + t.4 * 60 + t.5
}

/// The fields written out as one decimal number, two digits per field after
/// the year.
spec fn moment_number(t: (int, int, int, int, int, int)) -> int {
    ((((t.0 * 100 + t.1) * 100 + t.2) * 100 + t.3) * 100 + t.4) * 100 + t.5
}

/// The fields are in range for a real moment.
spec fn moment_in_range(t: (int, int, int, int, int, int)) -> bool {
    &&& 0 <= t.0
    &&& 1 <= t.1 <= 12
    &&& 1 <= t.2 <= days_in_month(t.0, t.1)
    &&& 0 <= t.3 <= 23
    &&& 0 <= t.4 <= 59
    &&& 0 <= t.5 <= 59
}

/// `t` comes before `u`, field by field from the year down.
spec fn moment_before(t: (int, int, int, int, int, int), u: (int, int, int, int, int, int)) -> bool {
    ||| date_before(t.0, t.1, t.2, u.0, u.1, u.2)
    ||| (t.0 == u.0 && t.1 == u.1 && t.2 == u.2 && (t.3 < u.3 || (t.3 == u.3 && (t.4 < u.4 || (
    t.4 == u.4 && t.5 < u.5)))))
}

proof fn lemma_moment_order(t: (int, int, int, int, int, int), u: (int, int, int, int, int, int))
    requires
        moment_in_range(t),
        moment_in_range(u),
        moment_before(t, u),
    ensures
        moment_seconds(t) < moment_seconds(u),
        moment_number(t) < moment_number(u),
{
    if date_before(t.0, t.1, t.2, u.0, u.1, u.2) {
        lemma_day_number_order(t.0, t.1, t.2, u.0, u.1, u.2);
        assert(civil_day_number(t.0, t.1, t.2) * 86400 + 86400 <= civil_day_number(u.0, u.1, u.2)
            * 86400);
    }
    assert(days_in_month(t.0, t.1) <= 31 && days_in_month(u.0, u.1) <= 31);
}

/// The fields and the number of a valid date-time, and the time it is read as
/// when `Z` follows it.
proof fn lemma_valid_date_time_reads(a: Seq<u8>)
    requires
        is_valid_date_time(a),
    ensures
        moment_in_range(moment_fields(a)),
        date_time_number(a) == moment_number(moment_fields(a)),
        digits_value(a, 0, 14) is Some,
        pdf_date_seconds(a + seq![90u8]) == Some(moment_seconds(moment_fields(a))),
{
    lemma_digits_value_all_digits(a, 0, 4);
    lemma_digits_value_all_digits(a, 4, 2);
    lemma_digits_value_all_digits(a, 6, 2);
    lemma_digits_value_all_digits(a, 8, 2);
    lemma_digits_value_all_digits(a, 10, 2);
    lemma_digits_value_all_digits(a, 12, 2);
    lemma_digits_value_bound(a, 0, 4);
    lemma_digits_value_bound(a, 4, 2);
    lemma_digits_value_bound(a, 6, 2);
    lemma_digits_value_bound(a, 8, 2);
    lemma_digits_value_bound(a, 10, 2);
    lemma_digits_value_bound(a, 12, 2);
    reveal_with_fuel(pow10, 5);
    lemma_digits_value_append_two(a, 0, 4);
    lemma_digits_value_append_two(a, 0, 6);
    lemma_digits_value_append_two(a, 0, 8);
    lemma_digits_value_append_two(a, 0, 10);
    lemma_digits_value_append_two(a, 0, 12);
    law_utc_marker(a);
}

/// Parsing keeps the order of dates: two full UTC date-times that name real
/// moments give times in the same order as their digit strings, and the same
/// time exactly when they are the same string.
pub proof fn law_parse_keeps_date_order(a: Seq<u8>, b: Seq<u8>)
    requires
        is_valid_date_time(a),
        is_valid_date_time(b),
    ensures
        pdf_date_seconds(a + seq![90u8]) is Some,
        pdf_date_seconds(b + seq![90u8]) is Some,
        (date_time_number(a) < date_time_number(b)) == (pdf_date_seconds(a + seq![90u8])->0
            < pdf_date_seconds(b + seq![90u8])->0),
        (a == b) == (pdf_date_seconds(a + seq![90u8])->0 == pdf_date_seconds(
            b + seq![90u8],
        )->0),
{
    lemma_valid_date_time_reads(a);
    lemma_valid_date_time_reads(b);
    let t = moment_fields(a);
    let u = moment_fields(b);
    if moment_before(t, u) {
        lemma_moment_order(t, u);
    } else if moment_before(u, t) {
        lemma_moment_order(u, t);
    } else {
        assert(t == u);
        if moment_seconds(t) == moment_seconds(u) {
            lemma_digits_value_injective(a, b, 0, 14);
            assert(a =~= b);
        }
    }
}

} // verus!

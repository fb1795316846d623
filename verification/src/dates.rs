//! Timestamps parsed from the marketplace's human-readable
//! `DD.MM.YYYY HH:MM` form, converted to Unix seconds through chrono.

use vstd::prelude::*;
use crate::text::match_at;

verus! {

/// What chrono computes for the UTC civil time `y-mo-d h:mi:00` in the
/// proleptic Gregorian calendar: its Unix timestamp, or nothing when the
/// fields name no real instant.  The value depends on the fields alone.
pub uninterp spec fn epoch_of(y: int, mo: int, d: int, h: int, mi: int) -> Option<int>;

/// Relies on chrono's `TimeZone::with_ymd_and_hms` on `Utc` and
/// `DateTime::timestamp`: builds the UTC instant `y-mo-d h:mi:00` and
/// returns its Unix timestamp; out-of-range fields give `None` rather than
/// panicking.
#[verifier::external_body]
pub fn ymd_hm_to_epoch(y: u32, mo: u32, d: u32, h: u32, mi: u32) -> (r: Option<i64>)
    requires
        y <= 9999,
        mo <= 99,
        d <= 99,
        h <= 99,
        mi <= 99,
    ensures
        r is Some <==> epoch_of(y as int, mo as int, d as int, h as int, mi as int) is Some,
        r matches Some(t) ==> t as int == epoch_of(
            y as int,
            mo as int,
            d as int,
            h as int,
            mi as int,
        )->0,
{
    match chrono::TimeZone::with_ymd_and_hms(&chrono::Utc, y as i32, mo, d, h, mi, 0) {
        chrono::LocalResult::Single(t) => Some(t.timestamp()),
        _ => None,
    }
}

/// A decimal digit.
pub open spec fn is_digit(c: char) -> bool {
    48 <= c as int && c as int <= 57
}

/// The numeric value of a decimal digit.
pub open spec fn digit_val(c: char) -> int {
    c as int - 48
}

/// The characters starting at `d` have the shape `DD?MM?YYYY HH:MM`: digits
/// in the marked positions, a space before the hour, a colon before the
/// minute, and any single character between the date groups.
pub open spec fn dt_shape_at(s: Seq<char>, d: int) -> bool {
    &&& 0 <= d
    &&& d + 16 <= s.len()
    &&& is_digit(s[d]) && is_digit(s[d + 1])
    &&& is_digit(s[d + 3]) && is_digit(s[d + 4])
    &&& is_digit(s[d + 6]) && is_digit(s[d + 7]) && is_digit(s[d + 8]) && is_digit(s[d + 9])
    &&& s[d + 10] == ' '
    &&& is_digit(s[d + 11]) && is_digit(s[d + 12])
    &&& s[d + 13] == ':'
    &&& is_digit(s[d + 14]) && is_digit(s[d + 15])
}

/// The day field of a datetime shape.
pub open spec fn dt_day(s: Seq<char>, d: int) -> int {
    digit_val(s[d]) * 10 + digit_val(s[d + 1])
}

/// The month field of a datetime shape.
pub open spec fn dt_month(s: Seq<char>, d: int) -> int {
    digit_val(s[d + 3]) * 10 + digit_val(s[d + 4])
}

/// The year field of a datetime shape.
pub open spec fn dt_year(s: Seq<char>, d: int) -> int {
    digit_val(s[d + 6]) * 1000 + digit_val(s[d + 7]) * 100 + digit_val(s[d + 8]) * 10
        + digit_val(s[d + 9])
}

/// The hour field of a datetime shape.
pub open spec fn dt_hour(s: Seq<char>, d: int) -> int {
    digit_val(s[d + 11]) * 10 + digit_val(s[d + 12])
}

/// The minute field of a datetime shape.
pub open spec fn dt_minute(s: Seq<char>, d: int) -> int {
    digit_val(s[d + 14]) * 10 + digit_val(s[d + 15])
}

/// The Unix timestamp of the datetime shape at `d`, if chrono accepts its
/// fields.
pub open spec fn dt_epoch_at(s: Seq<char>, d: int) -> Option<int> {
    epoch_of(dt_year(s, d), dt_month(s, d), dt_day(s, d), dt_hour(s, d), dt_minute(s, d))
}

/// The label occurs at `i`, immediately followed by a datetime shape.
pub open spec fn labeled_dt_at(s: Seq<char>, label: Seq<char>, i: int) -> bool {
    match_at(s, label, i) && dt_shape_at(s, i + label.len())
}

/// The first position at or after `from` where a labeled datetime occurs.
pub open spec fn find_labeled_dt(s: Seq<char>, label: Seq<char>, from: int) -> Option<int>
    decreases s.len() - from,
{
    if label.len() == 0 || from + label.len() > s.len() {
        None
    } else if labeled_dt_at(s, label, from) {
        Some(from)
    } else {
        find_labeled_dt(s, label, from + 1)
    }
}

/// Reads one decimal digit.
fn digit_at(s: &str, i: usize) -> (v: u32)
    requires
        i < s@.len(),
        is_digit(s@[i as int]),
    ensures
        v == digit_val(s@[i as int]),
        v <= 9,
{
    (s.get_char(i) as u32) - 48
}

/// Checks whether one decimal digit stands at `i`.
fn is_digit_at(s: &str, i: usize) -> (r: bool)
    requires
        i < s@.len(),
    ensures
        r == is_digit(s@[i as int]),
{
    let v = s.get_char(i) as u32;
    48 <= v && v <= 57
}

/// Checks for the `DD?MM?YYYY HH:MM` shape at `d`.
fn dt_shape_at_exec(s: &str, d: usize) -> (r: bool)
    requires
        d <= s@.len(),
    ensures
        r == dt_shape_at(s@, d as int),
{
    let slen = s.unicode_len();
    if slen - d < 16 {
        return false;
    }
    is_digit_at(s, d) && is_digit_at(s, d + 1) && is_digit_at(s, d + 3) && is_digit_at(s, d + 4)
        && is_digit_at(s, d + 6) && is_digit_at(s, d + 7) && is_digit_at(s, d + 8) && is_digit_at(
        s,
        d + 9,
    ) && s.get_char(d + 10) == ' ' && is_digit_at(s, d + 11) && is_digit_at(s, d + 12)
        && s.get_char(d + 13) == ':' && is_digit_at(s, d + 14) && is_digit_at(s, d + 15)
}

/// Checks for a label followed by a datetime shape at `i`.
fn labeled_dt_at_exec(s: &str, label: &str, i: usize) -> (r: bool)
    requires
        i <= s@.len(),
    ensures
        r == labeled_dt_at(s@, label@, i as int),
{
    if !crate::text::pattern_at(s, label, i) {
        return false;
    }
    let slen = s.unicode_len();
    let llen = label.unicode_len();
    proof {
        assert(i + llen <= slen);
    }
    dt_shape_at_exec(s, i + llen)
}

/// Finds the first labeled datetime at or after `from`.
pub fn find_labeled_dt_exec(s: &str, label: &str, from: usize) -> (r: Option<usize>)
    ensures
        r is Some <==> find_labeled_dt(s@, label@, from as int) is Some,
        r matches Some(i) ==> i as int == find_labeled_dt(s@, label@, from as int)->0 && from
            <= i && i + label@.len() + 16 <= s@.len() && labeled_dt_at(s@, label@, i as int),
{
    let slen = s.unicode_len();
    let llen = label.unicode_len();
    if llen == 0 || llen > slen || from > slen - llen {
        proof {
            assert(find_labeled_dt(s@, label@, from as int) is None);
        }
        return None;
    }
    let mut i: usize = from;
    while i <= slen - llen
        invariant
            from <= i,
            0 < llen <= slen,
            slen == s@.len(),
            llen == label@.len(),
            find_labeled_dt(s@, label@, from as int) == find_labeled_dt(s@, label@, i as int),
        decreases slen - i,
    {
        if labeled_dt_at_exec(s, label, i) {
            return Some(i);
        }
        proof {
            assert(find_labeled_dt(s@, label@, i as int) == find_labeled_dt(
                s@,
                label@,
                i as int + 1,
            ));
        }
        i += 1;
    }
    proof {
        assert(find_labeled_dt(s@, label@, i as int) is None);
    }
    None
}

/// Parses the datetime shape at `d` and converts it through chrono; `None`
/// when the fields name no real instant.
pub fn dt_epoch_at_exec(s: &str, d: usize) -> (r: Option<i64>)
    requires
        dt_shape_at(s@, d as int),
    ensures
        r is Some <==> dt_epoch_at(s@, d as int) is Some,
        r matches Some(t) ==> t as int == dt_epoch_at(s@, d as int)->0,
{
    let slen = s.unicode_len();
    proof {
        assert(d + 16 <= slen);
    }
    let day = digit_at(s, d) * 10 + digit_at(s, d + 1);
    let month = digit_at(s, d + 3) * 10 + digit_at(s, d + 4);
    let year = digit_at(s, d + 6) * 1000 + digit_at(s, d + 7) * 100 + digit_at(s, d + 8) * 10
        + digit_at(s, d + 9);
    let hour = digit_at(s, d + 11) * 10 + digit_at(s, d + 12);
    let minute = digit_at(s, d + 14) * 10 + digit_at(s, d + 15);
    ymd_hm_to_epoch(year, month, day, hour, minute)
}

} // verus!

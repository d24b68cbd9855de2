//! Calendar dates: the rendering of a timestamp with a `strftime` pattern
//! by the `chrono` crate.
//!
//! A point in time reaches the library as its distance from the UNIX epoch
//! (as `SystemTime::duration_since` gives it, before or after), and is
//! carried as a UNIX timestamp: whole seconds since 1970-01-01T00:00:00Z and
//! the nanoseconds past that second.

use vstd::prelude::*;
use crate::text::numeral_value;

verus! {

/// What `chrono::DateTime::<Utc>::from_timestamp(secs, nanos)` followed by
/// `format(pattern)` renders: `None` where `chrono` refuses the timestamp.
pub uninterp spec fn utc_rendering(secs: i64, nanos: u32, pattern: Seq<char>) -> Option<Seq<char>>;

/// The ways in which the normalizer writes a date.
#[derive(Clone, Copy, PartialEq, Eq, Structural, Debug)]
pub enum DateStyle {
    /// Date and time of a conversion, such as `2024-05-01T12:30:00Z`.
    Timestamp,
    /// The year alone, as in a copyright line.
    Year,
    /// The date part of a dated anchor file name, such as `2024_05_01`.
    AnchorSuffix,
}

/// The `strftime` pattern of each style.
pub open spec fn pattern_of(style: DateStyle) -> Seq<char> {
    match style {
        DateStyle::Timestamp => "%Y-%m-%dT%H:%M:%SZ"@,
        DateStyle::Year => "%Y"@,
        DateStyle::AnchorSuffix => "%Y_%m_%d"@,
    }
}

/// The patterns that the normalizer renders dates with.
pub open spec fn supported_pattern(p: Seq<char>) -> bool {
    p == pattern_of(DateStyle::Timestamp) || p == pattern_of(DateStyle::Year) || p == pattern_of(
        DateStyle::AnchorSuffix,
    )
}

/// Whether `c` is a decimal digit.
pub open spec fn is_digit(c: char) -> bool {
    '0' <= c && c <= '9'
}

/// A date written `YYYY_MM_DD`: ten characters, a four-digit year, then a
/// two-digit month (01 to 12) and a two-digit day (01 to 31), each
/// zero-padded and preceded by `_`.
pub open spec fn is_underscored_date(s: Seq<char>) -> bool {
    &&& s.len() == 10
    &&& forall|i: int| 0 <= i < 10 && i != 4 && i != 7 ==> is_digit(#[trigger] s[i])
    &&& s[4] == '_'
    &&& s[7] == '_'
    &&& 1 <= numeral_value(s.subrange(5, 7)) <= 12
    &&& 1 <= numeral_value(s.subrange(8, 10)) <= 31
}

/// Whether a UNIX timestamp falls in a year written with four digits: from
/// 0001-01-01T00:00:00Z to 9999-12-31T23:59:59Z.
pub open spec fn in_four_digit_years(secs: int) -> bool {
    -62_135_596_800 <= secs <= 253_402_300_799
}

/// Renders a timestamp with `chrono::DateTime::<Utc>::from_timestamp` and
/// `DateTime::format`; `None` exactly where `from_timestamp` refuses it.
/// The pattern is one of the normalizer's, each of which `chrono` formats
/// without error. Of the text, the contract states only the shape that
/// `chrono`'s documentation gives for `%Y_%m_%d` (`%Y` the year zero-padded
/// to four digits, `%m` the month 01 to 12, `%d` the day 01 to 31) on a
/// timestamp of a four-digit year, which `from_timestamp` accepts; the
/// calendar date itself is left to the name `utc_rendering`.
#[verifier::external_body]
fn render_utc(secs: i64, nanos: u32, pattern: &str) -> (text: Option<String>)
    requires
        supported_pattern(pattern@),
    ensures
        match text {
            Some(s) => utc_rendering(secs, nanos, pattern@) == Some(s@),
            None => utc_rendering(secs, nanos, pattern@) is None,
        },
        pattern@ == "%Y_%m_%d"@ && nanos < 1_000_000_000 && in_four_digit_years(secs as int)
            ==> text is Some && is_underscored_date(text->0@),
{
    match chrono::DateTime::from_timestamp(secs, nanos) {
        Some(dt) => Some(dt.format(pattern).to_string()),
        None => None,
    }
}

/// The `strftime` pattern of a style.
pub fn date_pattern(style: DateStyle) -> (pattern: &'static str)
    ensures
        pattern@ == pattern_of(style),
{
    match style {
        DateStyle::Timestamp => "%Y-%m-%dT%H:%M:%SZ",
        DateStyle::Year => "%Y",
        DateStyle::AnchorSuffix => "%Y_%m_%d",
    }
}

/// A timestamp written in `style`, or `None` where `chrono` refuses the
/// timestamp.
pub fn render_date(secs: i64, nanos: u32, style: DateStyle) -> (text: Option<String>)
    ensures
        match text {
            Some(s) => utc_rendering(secs, nanos, pattern_of(style)) == Some(s@),
            None => utc_rendering(secs, nanos, pattern_of(style)) is None,
        },
        style == DateStyle::AnchorSuffix && nanos < 1_000_000_000 && in_four_digit_years(secs as int) ==> (
        text matches Some(s) && is_underscored_date(s@)),
{
    render_utc(secs, nanos, date_pattern(style))
}

/// The UNIX timestamp of a time given as its distance from the UNIX epoch
/// (`secs` whole seconds and `nanos` nanoseconds, before or after it):
/// whole seconds rounded down, and the non-negative nanoseconds past them.
/// `None` when the seconds do not fit in an `i64`.
pub open spec fn epoch_timestamp(before_epoch: bool, secs: u64, nanos: u32) -> Option<(i64, u32)> {
    let whole: int = if !before_epoch {
        secs as int
    } else if nanos == 0 {
        -(secs as int)
    } else {
        -(secs as int) - 1
    };
    let frac: int = if before_epoch && nanos != 0 { 1_000_000_000 - nanos } else { nanos as int };
    if i64::MIN <= whole <= i64::MAX {
        Some((whole as i64, frac as u32))
    } else {
        None
    }
}

/// The timestamp names the same instant as the distance it is made from:
/// its seconds are the signed distance in nanoseconds divided by one second,
/// rounded down, and its nanoseconds the remainder; it is `None` exactly when
/// those seconds do not fit in an `i64`.
pub proof fn lemma_epoch_timestamp_same_instant(before_epoch: bool, secs: u64, nanos: u32)
    requires
        nanos < 1_000_000_000,
    ensures
        ({
            let distance: int = secs * 1_000_000_000 + nanos;
            let total: int = if before_epoch { -distance } else { distance };
            epoch_timestamp(before_epoch, secs, nanos) == if i64::MIN <= total / 1_000_000_000 <= i64::MAX {
                Some(((total / 1_000_000_000) as i64, (total % 1_000_000_000) as u32))
            } else {
                None
            }
        }),
{
    let distance: int = secs * 1_000_000_000 + nanos;
    let total: int = if before_epoch { -distance } else { distance };
    let whole: int = if !before_epoch {
        secs as int
    } else if nanos == 0 {
        -(secs as int)
    } else {
        -(secs as int) - 1
    };
    let frac: int = if before_epoch && nanos != 0 { 1_000_000_000 - nanos } else { nanos as int };
    assert(total == whole * 1_000_000_000 + frac);
    assert(0 <= frac < 1_000_000_000);
    vstd::arithmetic::div_mod::lemma_fundamental_div_mod_converse(total, 1_000_000_000, whole, frac);
}

/// The UNIX timestamp of a time given as its distance from the UNIX epoch.
pub fn timestamp_from_epoch_offset(before_epoch: bool, secs: u64, nanos: u32) -> (stamp: Option<(i64, u32)>)
    requires
        nanos < 1_000_000_000,
    ensures
        stamp == epoch_timestamp(before_epoch, secs, nanos),
{
    let max: u64 = 0x7fff_ffff_ffff_ffff;
    if !before_epoch {
        if secs <= max {
            Some((secs as i64, nanos))
        } else {
            None
        }
    } else if nanos == 0 {
        if secs <= max {
            Some((-(secs as i64), 0))
        } else if secs == max + 1 {
            Some((i64::MIN, 0))
        } else {
            None
        }
    } else {
        if secs <= max {
            Some((-(secs as i64) - 1, 1_000_000_000 - nanos))
        } else {
            None
        }
    }
}

/// The date of a file-system time in the anchor-suffix style, the time given
/// as its distance from the UNIX epoch; `None` when `chrono` cannot place it.
pub fn file_date_suffix(before_epoch: bool, secs: u64, nanos: u32) -> (suffix: Option<String>)
    requires
        nanos < 1_000_000_000,
    ensures
        match epoch_timestamp(before_epoch, secs, nanos) {
            None => suffix is None,
            Some(stamp) => match suffix {
                Some(s) => utc_rendering(stamp.0, stamp.1, pattern_of(DateStyle::AnchorSuffix)) == Some(s@),
                None => utc_rendering(stamp.0, stamp.1, pattern_of(DateStyle::AnchorSuffix)) is None,
            },
        },
        match epoch_timestamp(before_epoch, secs, nanos) {
            None => true,
            Some(stamp) => in_four_digit_years(stamp.0 as int) ==> (suffix matches Some(s)
                && is_underscored_date(s@)),
        },
{
    match timestamp_from_epoch_offset(before_epoch, secs, nanos) {
        None => None,
        Some(stamp) => render_date(stamp.0, stamp.1, DateStyle::AnchorSuffix),
    }
}

} // verus!

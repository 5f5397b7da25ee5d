//! Metadata extraction: fusing EXIF facts, geocoding, location history,
//! filename dates and filesystem facts into a `MediaContext`.
//!
//! The reading of bytes (EXIF acquisition, MIME sniffing, image headers,
//! filesystem stats, the geocoder database) happens outside; this module
//! receives those facts as plain values and performs every decision and
//! computation on them. Callers drive the phases in order: the initial
//! stage, a geocode installation when the initial stage requested one, the
//! fallback stage, the history fallback with its own geocode installation,
//! and the defaults.

use crate::calendar::civil_from_epoch_ms;
use crate::calendar::days_from_civil;
use crate::calendar::epoch_ms_from_civil;
use crate::calendar::lemma_civil_of_ms_unique;
use crate::calendar::month_name_of;
use crate::calendar::spec_civil_of_ms;
use crate::calendar::spec_days_in_month;
use crate::calendar::spec_month_name;
use crate::calendar::spec_weekday_index;
use crate::calendar::spec_weekday_name;
use crate::calendar::weekday_index_of_days;
use crate::calendar::weekday_name_of;
use crate::calendar::days_in_month_exec;
use crate::context::MediaContext;
use crate::context::MetaValV;
use crate::context::meta_lookup;
use crate::context::MetaValue;
use crate::context::TimeContext;
use crate::context::TimeContextV;
use crate::engine::digits_end;
use crate::engine::digits_end_exec;
use crate::engine::lemma_digits_end_range;
use crate::engine::pow10;
use crate::template::has_prefix;
use crate::template::has_prefix_exec;
use crate::text::all_digits;
use crate::text::copy_range;
use crate::text::str_to_chars;
use crate::text::is_digit_char;
use crate::text::chars_to_string;
use crate::text::pad2_chars;
use crate::text::pad4_chars;
use crate::text::parse_u64_range;
use crate::text::spec_digits_val;
use crate::text::spec_pad2;
use crate::text::spec_pad4;
use vstd::arithmetic::div_mod::lemma_fundamental_div_mod;
use vstd::arithmetic::div_mod::lemma_fundamental_div_mod_converse;
use vstd::prelude::*;

verus! {

/// A tag value as the EXIF reader hands it over: integers of any width
/// already widened, unsigned and signed rationals, text, or the debug
/// rendering of anything else.
#[derive(Clone, Debug, PartialEq)]
pub enum RawExifValue {
    Int(i64),
    URat(u32, u32),
    IRat(i32, i32),
    Text(String),
    Other(String),
}

/// One EXIF entry: its symbolic tag name (or `Tag_<code>`), whether it is
/// one of the two originating-date tags, and its value.
#[derive(Clone, Debug, PartialEq)]
pub struct ExifEntry {
    pub tag_name: String,
    pub is_datetime_tag: bool,
    pub value: RawExifValue,
}

/// The GPS block of an EXIF segment, as rationals: degrees, minutes,
/// seconds for each axis, the negating reference flags, and the altitude
/// rational.
#[derive(Clone, Copy, Debug, PartialEq, Eq)]
pub struct RawGps {
    pub lat_deg: (u32, u32),
    pub lat_min: (u32, u32),
    pub lat_sec: (u32, u32),
    pub lat_south: bool,
    pub lon_deg: (u32, u32),
    pub lon_min: (u32, u32),
    pub lon_sec: (u32, u32),
    pub lon_west: bool,
    pub alt: (u32, u32),
}

/// What the outside world reports about one file before any decision is
/// taken: its path and size, the sniffed MIME type, the EXIF entries and
/// GPS block when the file carries them, raster dimensions, and the
/// filesystem creation instant in epoch milliseconds.
#[derive(Clone, Debug, PartialEq)]
pub struct FileFacts {
    pub path: String,
    pub size: u64,
    pub mime: Option<String>,
    pub exif: Option<Vec<ExifEntry>>,
    pub gps: Option<RawGps>,
    pub dimensions: Option<(u32, u32)>,
    pub created_ms: Option<i64>,
}

/// How one raw tag value lands in the tag map: integers stay integers,
/// rationals keep numerator and denominator (a negative denominator moves
/// its sign to the numerator), text and debug renderings are text.
pub open spec fn spec_meta_of_raw(v: RawExifValue) -> MetaValV {
    match v {
        RawExifValue::Int(i) => MetaValV::Int(i as int),
        RawExifValue::URat(n, d) => MetaValV::Rat(n as int, d as int),
        RawExifValue::IRat(n, d) => {
            if d < 0 {
                MetaValV::Rat(-(n as int), -(d as int))
            } else {
                MetaValV::Rat(n as int, d as int)
            }
        },
        RawExifValue::Text(s) => MetaValV::Text(s@),
        RawExifValue::Other(s) => MetaValV::Text(s@),
    }
}

pub fn meta_value_of_raw(v: &RawExifValue) -> (r: MetaValue)
    ensures
        r@ == spec_meta_of_raw(*v),
{
    match v {
        RawExifValue::Int(i) => MetaValue::Int(*i),
        RawExifValue::URat(n, d) => MetaValue::Rat(*n as i64, *d as u64),
        RawExifValue::IRat(n, d) => {
            if *d < 0 {
                MetaValue::Rat(-(*n as i64), (-(*d as i64)) as u64)
            } else {
                MetaValue::Rat(*n as i64, *d as u64)
            }
        },
        RawExifValue::Text(s) => MetaValue::Text(s.clone()),
        RawExifValue::Other(s) => MetaValue::Text(s.clone()),
    }
}

/// `a / b` rounded half-up, for nonnegative `a` and positive `b`.
pub open spec fn spec_round_div(a: int, b: int) -> int {
    (2 * a + b) / (2 * b)
}

/// A degrees/minutes/seconds triple of rationals as signed decimal degrees
/// in E7 fixed point, each term rounded half-up; no value when a
/// denominator is zero.
pub open spec fn spec_gps_axis_e7(
    deg: (u32, u32),
    minute: (u32, u32),
    sec: (u32, u32),
    negate: bool,
) -> Option<int> {
    if deg.1 == 0 || minute.1 == 0 || sec.1 == 0 {
        Option::None
    } else {
        let v = spec_round_div(deg.0 * 10_000_000, deg.1 as int) + spec_round_div(
            minute.0 * 10_000_000,
            minute.1 * 60,
        ) + spec_round_div(sec.0 * 10_000_000, sec.1 * 3600);
        if negate {
            Option::Some(-v)
        } else {
            Option::Some(v)
        }
    }
}

/// One rounded division in 128-bit arithmetic.
fn round_div_u128(a: u128, b: u128) -> (r: u128)
    requires
        b > 0,
        a <= 0xffff_ffff_ffff_ffff_ffff_ffff,
        b <= 0xffff_ffff_ffff_ffff_ffff_ffff,
    ensures
        r == spec_round_div(a as int, b as int),
{
    (2 * a + b) / (2 * b)
}

/// Converts one GPS axis to E7 fixed point.
pub fn gps_axis_e7(deg: (u32, u32), minute: (u32, u32), sec: (u32, u32), negate: bool) -> (r:
    Option<i64>)
    ensures
        match r {
            Option::Some(v) => spec_gps_axis_e7(deg, minute, sec, negate) == Option::Some(
                v as int,
            ),
            Option::None => spec_gps_axis_e7(deg, minute, sec, negate) is None,
        },
{
    if deg.1 == 0 || minute.1 == 0 || sec.1 == 0 {
        return Option::None;
    }
    let t1 = round_div_u128(deg.0 as u128 * 10_000_000, deg.1 as u128);
    let t2 = round_div_u128(minute.0 as u128 * 10_000_000, minute.1 as u128 * 60);
    let t3 = round_div_u128(sec.0 as u128 * 10_000_000, sec.1 as u128 * 3600);
    proof {
        lemma_round_div_le(deg.0 as int * 10_000_000, deg.1 as int);
        lemma_round_div_le(minute.0 as int * 10_000_000, minute.1 as int * 60);
        lemma_round_div_le(sec.0 as int * 10_000_000, sec.1 as int * 3600);
    }
    let total = (t1 + t2 + t3) as i64;
    if negate {
        Option::Some(-total)
    } else {
        Option::Some(total)
    }
}

/// A rounded quotient is bounded by its numerator plus one.
proof fn lemma_round_div_le(a: int, b: int)
    requires
        0 <= a,
        1 <= b,
    ensures
        0 <= spec_round_div(a, b) <= a + 1,
{
    let q = (2 * a + b) / (2 * b);
    lemma_fundamental_div_mod(2 * a + b, 2 * b);
    assert(q * (2 * b) <= 2 * a + b);
    if q > a + 1 {
        assert(q * (2 * b) >= (a + 2) * (2 * b)) by (nonlinear_arith)
            requires
                q >= a + 2,
                b >= 1,
        ;
        assert((a + 2) * (2 * b) > 2 * a + b) by (nonlinear_arith)
            requires
                b >= 1,
                a >= 0,
        ;
    }
    if q < 0 {
        assert(q * (2 * b) <= -2 * b) by (nonlinear_arith)
            requires
                q <= -1,
                b >= 1,
        ;
    }
}

/// The altitude rational in millimeter-scale fixed point (thousandths).
pub open spec fn spec_alt_e3(alt: (u32, u32)) -> Option<int> {
    if alt.1 == 0 {
        Option::None
    } else {
        Option::Some(spec_round_div(alt.0 * 1000, alt.1 as int))
    }
}

pub fn alt_e3(alt: (u32, u32)) -> (r: Option<i64>)
    ensures
        match r {
            Option::Some(v) => spec_alt_e3(alt) == Option::Some(v as int),
            Option::None => spec_alt_e3(alt) is None,
        },
{
    if alt.1 == 0 {
        return Option::None;
    }
    let t = round_div_u128(alt.0 as u128 * 1000, alt.1 as u128);
    proof {
        lemma_round_div_le(alt.0 as int * 1000, alt.1 as int);
    }
    Option::Some(t as i64)
}

/// The calendar strings an instant decomposes into, zero-padded, with the
/// instant itself retained.
pub open spec fn spec_time_context_v(ms: int) -> TimeContextV {
    let c = spec_civil_of_ms(ms);
    TimeContextV {
        yyyy: spec_pad4(c.year as int),
        mm: spec_pad2(c.month as nat),
        dd: spec_pad2(c.day as nat),
        hh: spec_pad2(c.hour as nat),
        minute: spec_pad2(c.minute as nat),
        ss: spec_pad2(c.second as nat),
        month_name: spec_month_name(c.month as int),
        weekday: spec_weekday_name(spec_weekday_index(ms / 86400000)),
        timestamp: Option::Some(ms),
    }
}

/// Splits an instant into its civil day count and intra-day milliseconds.
fn epoch_days_rem(ms: i64) -> (r: (i64, u64))
    ensures
        r.0 == ms as int / 86400000,
        r.1 == ms as int % 86400000,
{
    if ms >= 0 {
        let mu = ms as u64;
        let q = mu / 86400000;
        let rm = mu % 86400000;
        proof {
            lemma_fundamental_div_mod(mu as int, 86400000);
            lemma_fundamental_div_mod_converse(ms as int, 86400000, q as int, rm as int);
        }
        (q as i64, rm)
    } else {
        let n = (-(ms + 1)) as u64;
        let q = n / 86400000;
        let rm = n % 86400000;
        proof {
            lemma_fundamental_div_mod(n as int, 86400000);
            lemma_fundamental_div_mod_converse(
                ms as int,
                86400000,
                -1 - q as int,
                86400000 - 1 - rm as int,
            );
        }
        (-1 - (q as i64), 86400000 - 1 - rm)
    }
}

/// Builds the time block of an instant.
pub fn time_context_from_ms(ms: i64) -> (r: TimeContext)
    ensures
        r@ == spec_time_context_v(ms as int),
{
    let c = civil_from_epoch_ms(ms);
    proof {
        lemma_civil_of_ms_unique(c, ms as int);
    }
    let (days, _rem) = epoch_days_rem(ms);
    let wd = weekday_index_of_days(days);
    let yyyy = pad4_chars(c.year);
    let mm = pad2_chars(c.month);
    let dd = pad2_chars(c.day);
    let hh = pad2_chars(c.hour);
    let minute = pad2_chars(c.minute);
    let ss = pad2_chars(c.second);
    TimeContext {
        yyyy: chars_to_string(&yyyy),
        mm: chars_to_string(&mm),
        dd: chars_to_string(&dd),
        hh: chars_to_string(&hh),
        minute: chars_to_string(&minute),
        ss: chars_to_string(&ss),
        month_name: month_name_of(c.month),
        weekday: weekday_name_of(wd),
        timestamp: Option::Some(ms),
    }
}

/// A digit string's value is below ten to its length.
pub proof fn lemma_digits_val_lt(s: Seq<char>)
    ensures
        all_digits(s) ==> spec_digits_val(s) < pow10(s.len()),
    decreases s.len(),
{
    if s.len() > 0 && all_digits(s) {
        assert(all_digits(s.drop_last())) by {
            assert(forall|i: int| 0 <= i < s.len() - 1 ==> s.drop_last()[i] == s[i]);
        }
        lemma_digits_val_lt(s.drop_last());
        crate::engine::lemma_pow10_pos((s.len() - 1) as nat);
        assert(is_digit_char(s.last()));
        assert(crate::text::char_digit(s.last()) <= 9);
        assert(pow10(s.len()) == 10 * pow10((s.len() - 1) as nat));
        assert(spec_digits_val(s.drop_last()) * 10 <= (pow10((s.len() - 1) as nat) - 1) * 10)
            by (nonlinear_arith)
            requires
                spec_digits_val(s.drop_last()) <= pow10((s.len() - 1) as nat) - 1,
        ;
    }
}

/// The shape of an embedded-date string `YYYY:MM:DD HH:MM:SS`.
pub open spec fn exif_dt_shape(s: Seq<char>) -> bool {
    &&& s.len() == 19
    &&& s[4] == ':'
    &&& s[7] == ':'
    &&& s[10] == ' '
    &&& s[13] == ':'
    &&& s[16] == ':'
    &&& all_digits(s.subrange(0, 4))
    &&& all_digits(s.subrange(5, 7))
    &&& all_digits(s.subrange(8, 10))
    &&& all_digits(s.subrange(11, 13))
    &&& all_digits(s.subrange(14, 16))
    &&& all_digits(s.subrange(17, 19))
}

pub open spec fn exif_dt_year(s: Seq<char>) -> int {
    spec_digits_val(s.subrange(0, 4)) as int
}

pub open spec fn exif_dt_month(s: Seq<char>) -> int {
    spec_digits_val(s.subrange(5, 7)) as int
}

pub open spec fn exif_dt_day(s: Seq<char>) -> int {
    spec_digits_val(s.subrange(8, 10)) as int
}

pub open spec fn exif_dt_hour(s: Seq<char>) -> int {
    spec_digits_val(s.subrange(11, 13)) as int
}

pub open spec fn exif_dt_minute(s: Seq<char>) -> int {
    spec_digits_val(s.subrange(14, 16)) as int
}

pub open spec fn exif_dt_second(s: Seq<char>) -> int {
    spec_digits_val(s.subrange(17, 19)) as int
}

pub open spec fn exif_dt_valid(s: Seq<char>) -> bool {
    &&& exif_dt_shape(s)
    &&& 1 <= exif_dt_month(s) <= 12
    &&& 1 <= exif_dt_day(s) <= spec_days_in_month(exif_dt_year(s), exif_dt_month(s))
    &&& exif_dt_hour(s) < 24
    &&& exif_dt_minute(s) < 60
    &&& exif_dt_second(s) < 60
}

/// The instant of a well-formed embedded date, interpreted as UTC; `None`
/// on any other string.
pub open spec fn spec_parse_exif_datetime(s: Seq<char>) -> Option<int> {
    if exif_dt_valid(s) {
        Option::Some(
            (days_from_civil(exif_dt_year(s), exif_dt_month(s), exif_dt_day(s)) * 86400
                + exif_dt_hour(s) * 3600 + exif_dt_minute(s) * 60 + exif_dt_second(s)) * 1000,
        )
    } else {
        Option::None
    }
}

/// Parses `YYYY:MM:DD HH:MM:SS` as a UTC instant in epoch milliseconds.
pub fn parse_exif_datetime(chars: &Vec<char>) -> (r: Option<i64>)
    ensures
        match r {
            Option::Some(ms) => spec_parse_exif_datetime(chars@) == Option::Some(ms as int),
            Option::None => spec_parse_exif_datetime(chars@) is None,
        },
{
    if chars.len() != 19 {
        return Option::None;
    }
    if !(chars[4] == ':' && chars[7] == ':' && chars[10] == ' ' && chars[13] == ':' && chars[16]
        == ':') {
        return Option::None;
    }
    proof {
        lemma_digits_val_lt(chars@.subrange(0, 4));
        lemma_digits_val_lt(chars@.subrange(5, 7));
        lemma_digits_val_lt(chars@.subrange(8, 10));
        lemma_digits_val_lt(chars@.subrange(11, 13));
        lemma_digits_val_lt(chars@.subrange(14, 16));
        lemma_digits_val_lt(chars@.subrange(17, 19));
        reveal_with_fuel(pow10, 5);
        assert(pow10(4) == 10000);
        assert(pow10(2) == 100);
    }
    let y = match parse_u64_range(chars, 0, 4) {
        Option::Some(v) => v,
        Option::None => {
            return Option::None;
        },
    };
    let mo = match parse_u64_range(chars, 5, 7) {
        Option::Some(v) => v,
        Option::None => {
            return Option::None;
        },
    };
    let d = match parse_u64_range(chars, 8, 10) {
        Option::Some(v) => v,
        Option::None => {
            return Option::None;
        },
    };
    let h = match parse_u64_range(chars, 11, 13) {
        Option::Some(v) => v,
        Option::None => {
            return Option::None;
        },
    };
    let mi = match parse_u64_range(chars, 14, 16) {
        Option::Some(v) => v,
        Option::None => {
            return Option::None;
        },
    };
    let sec = match parse_u64_range(chars, 17, 19) {
        Option::Some(v) => v,
        Option::None => {
            return Option::None;
        },
    };
    proof {
        lemma_digits_val_lt(chars@.subrange(0, 4));
        reveal_with_fuel(pow10, 5);
        assert(pow10(4) == 10000);
    }
    if !(1 <= mo && mo <= 12) {
        return Option::None;
    }
    if !(1 <= d && d <= days_in_month_exec(y as i64, mo) as u64) {
        return Option::None;
    }
    if !(h < 24 && mi < 60 && sec < 60) {
        return Option::None;
    }
    let ms = epoch_ms_from_civil(y as i64, mo, d, h, mi, sec);
    Option::Some(ms)
}


/// The shape of a naive date-time `YYYY-MM-DDTHH:MM:SS` (the digit groups
/// sit at the same positions as in the embedded form).
pub open spec fn naive_dt_shape(s: Seq<char>) -> bool {
    &&& s.len() == 19
    &&& s[4] == '-'
    &&& s[7] == '-'
    &&& s[10] == 'T'
    &&& s[13] == ':'
    &&& s[16] == ':'
    &&& all_digits(s.subrange(0, 4))
    &&& all_digits(s.subrange(5, 7))
    &&& all_digits(s.subrange(8, 10))
    &&& all_digits(s.subrange(11, 13))
    &&& all_digits(s.subrange(14, 16))
    &&& all_digits(s.subrange(17, 19))
}

pub open spec fn naive_dt_valid(s: Seq<char>) -> bool {
    &&& naive_dt_shape(s)
    &&& 1 <= exif_dt_month(s) <= 12
    &&& 1 <= exif_dt_day(s) <= spec_days_in_month(exif_dt_year(s), exif_dt_month(s))
    &&& exif_dt_hour(s) < 24
    &&& exif_dt_minute(s) < 60
    &&& exif_dt_second(s) < 60
}

/// Epoch seconds of a valid 19-character date-time.
pub open spec fn spec_dt_secs(s: Seq<char>) -> int {
    days_from_civil(exif_dt_year(s), exif_dt_month(s), exif_dt_day(s)) * 86400 + exif_dt_hour(s)
        * 3600 + exif_dt_minute(s) * 60 + exif_dt_second(s)
}

/// The instant of a naive date-time interpreted as UTC.
pub open spec fn spec_parse_naive_datetime(s: Seq<char>) -> Option<int> {
    if naive_dt_valid(s) {
        Option::Some(spec_dt_secs(s) * 1000)
    } else {
        Option::None
    }
}

/// The millisecond value a fraction-digit run contributes: its first three
/// digits, scaled up when fewer were written.
pub open spec fn spec_frac_ms(frac: Seq<char>) -> int {
    if frac.len() >= 3 {
        spec_digits_val(frac.subrange(0, 3)) as int
    } else {
        (spec_digits_val(frac) * pow10((3 - frac.len()) as nat)) as int
    }
}

/// The instant of an offset date-time `YYYY-MM-DDTHH:MM:SS[.f+](Z|±HH:MM)`,
/// converted to UTC.
pub open spec fn spec_parse_rfc3339(s: Seq<char>) -> Option<int> {
    if s.len() < 20 || !naive_dt_valid(s.subrange(0, 19)) {
        Option::None
    } else {
        let fe = if s[19] == '.' {
            digits_end(s, 20)
        } else {
            19
        };
        if s[19] == '.' && fe == 20 {
            Option::None
        } else {
            let ms_frac = if s[19] == '.' {
                spec_frac_ms(s.subrange(20, fe))
            } else {
                0
            };
            let base = spec_dt_secs(s.subrange(0, 19));
            if fe == s.len() - 1 && s[fe] == 'Z' {
                Option::Some(base * 1000 + ms_frac)
            } else if fe + 6 == s.len() && (s[fe] == '+' || s[fe] == '-') && s[fe + 3] == ':'
                && all_digits(s.subrange(fe + 1, fe + 3)) && all_digits(
                s.subrange(fe + 4, fe + 6),
            ) && spec_digits_val(s.subrange(fe + 1, fe + 3)) < 24 && spec_digits_val(
                s.subrange(fe + 4, fe + 6),
            ) < 60 {
                let off = spec_digits_val(s.subrange(fe + 1, fe + 3)) * 3600 + spec_digits_val(
                    s.subrange(fe + 4, fe + 6),
                ) * 60;
                if s[fe] == '-' {
                    Option::Some((base + off) * 1000 + ms_frac)
                } else {
                    Option::Some((base - off) * 1000 + ms_frac)
                }
            } else {
                Option::None
            }
        }
    }
}

/// Parses the 19-character naive core at `chars[0..19]`, returning its
/// epoch seconds, with the separators given.
fn parse_dt_core(chars: &Vec<char>, sep1: char, sep2: char, sep3: char) -> (r: Option<i64>)
    ensures
        ({
            let s = chars@;
            let shaped = s.len() >= 19 && s[4] == sep1 && s[7] == sep1 && s[10] == sep2 && s[13]
                == sep3 && s[16] == sep3 && all_digits(s.subrange(0, 4)) && all_digits(
                s.subrange(5, 7),
            ) && all_digits(s.subrange(8, 10)) && all_digits(s.subrange(11, 13)) && all_digits(
                s.subrange(14, 16),
            ) && all_digits(s.subrange(17, 19));
            let valid = shaped && 1 <= exif_dt_month(s) <= 12 && 1 <= exif_dt_day(s)
                <= spec_days_in_month(exif_dt_year(s), exif_dt_month(s)) && exif_dt_hour(s) < 24
                && exif_dt_minute(s) < 60 && exif_dt_second(s) < 60;
            match r {
                Option::Some(secs) => valid && secs == spec_dt_secs(s)
                    && -100_000_000_000 <= secs <= 300_000_000_000,
                Option::None => !valid,
            }
        }),
{
    if chars.len() < 19 {
        return Option::None;
    }
    if !(chars[4] == sep1 && chars[7] == sep1 && chars[10] == sep2 && chars[13] == sep3
        && chars[16] == sep3) {
        return Option::None;
    }
    proof {
        lemma_digits_val_lt(chars@.subrange(0, 4));
        reveal_with_fuel(pow10, 5);
        assert(pow10(4) == 10000);
    }
    let y = match parse_u64_range(chars, 0, 4) {
        Option::Some(v) => v,
        Option::None => {
            return Option::None;
        },
    };
    let mo = match parse_u64_range(chars, 5, 7) {
        Option::Some(v) => v,
        Option::None => {
            return Option::None;
        },
    };
    let d = match parse_u64_range(chars, 8, 10) {
        Option::Some(v) => v,
        Option::None => {
            return Option::None;
        },
    };
    let h = match parse_u64_range(chars, 11, 13) {
        Option::Some(v) => v,
        Option::None => {
            return Option::None;
        },
    };
    let mi = match parse_u64_range(chars, 14, 16) {
        Option::Some(v) => v,
        Option::None => {
            return Option::None;
        },
    };
    let sec = match parse_u64_range(chars, 17, 19) {
        Option::Some(v) => v,
        Option::None => {
            return Option::None;
        },
    };
    if !(1 <= mo && mo <= 12) {
        return Option::None;
    }
    if !(1 <= d && d <= days_in_month_exec(y as i64, mo) as u64) {
        return Option::None;
    }
    if !(h < 24 && mi < 60 && sec < 60) {
        return Option::None;
    }
    let days = crate::calendar::days_from_civil_exec(y as i64, mo, d);
    Option::Some(days * 86400 + h as i64 * 3600 + mi as i64 * 60 + sec as i64)
}

/// Parses an offset date-time to UTC epoch milliseconds.
#[verifier::rlimit(60)]
pub fn parse_rfc3339(chars: &Vec<char>) -> (r: Option<i64>)
    ensures
        match r {
            Option::Some(ms) => spec_parse_rfc3339(chars@) == Option::Some(ms as int),
            Option::None => spec_parse_rfc3339(chars@) is None,
        },
{
    let n = chars.len();
    if n < 20 {
        return Option::None;
    }
    let base = match parse_dt_core(chars, '-', 'T', ':') {
        Option::Some(v) => v,
        Option::None => {
            proof {
                lemma_core_covers_prefix(chars@);
            }
            return Option::None;
        },
    };
    proof {
        lemma_core_covers_prefix(chars@);
    }
    let mut fe: usize = 19;
    let mut ms_frac: i64 = 0;
    if chars[19] == '.' {
        fe = digits_end_exec(chars, 20);
        proof {
            lemma_digits_end_range(chars@, 20);
        }
        if fe == 20 {
            return Option::None;
        }
        let frac_len = fe - 20;
        proof {
            reveal_with_fuel(pow10, 5);
        }
        if frac_len >= 3 {
            proof {
                lemma_digits_subrange(chars@, 20, fe as int, 20, 23);
                lemma_digits_val_lt(chars@.subrange(20, 23));
            }
            ms_frac = match parse_u64_range(chars, 20, 23) {
                Option::Some(v) => v as i64,
                Option::None => {
                    proof {
                        assert(false);
                    }
                    0
                },
            };
            proof {
                assert(chars@.subrange(20, fe as int).subrange(0, 3) =~= chars@.subrange(20, 23));
                assert(0 <= ms_frac < 1000);
            }
        } else {
            proof {
                lemma_digits_subrange(chars@, 20, fe as int, 20, fe as int);
                lemma_digits_val_lt(chars@.subrange(20, fe as int));
            }
            let fv = match parse_u64_range(chars, 20, fe) {
                Option::Some(v) => v,
                Option::None => {
                    proof {
                        assert(false);
                    }
                    0
                },
            };
            let scale: u64 = if frac_len == 1 {
                100
            } else {
                10
            };
            ms_frac = (fv * scale) as i64;
            proof {
                assert(pow10(2) == 100);
                assert(pow10(1) == 10);
                assert(0 <= ms_frac < 1000);
            }
        }
    }
    if fe == n - 1 && chars[fe] == 'Z' {
        return Option::Some(base * 1000 + ms_frac);
    }
    if n >= 6 && fe == n - 6 && (chars[fe] == '+' || chars[fe] == '-') && chars[fe + 3] == ':' {
        proof {
            lemma_digits_val_lt(chars@.subrange(fe + 1, fe + 3));
            lemma_digits_val_lt(chars@.subrange(fe + 4, fe + 6));
            reveal_with_fuel(pow10, 3);
            assert(pow10(2) == 100);
        }
        let oh = match parse_u64_range(chars, fe + 1, fe + 3) {
            Option::Some(v) => v,
            Option::None => {
                return Option::None;
            },
        };
        let om = match parse_u64_range(chars, fe + 4, fe + 6) {
            Option::Some(v) => v,
            Option::None => {
                return Option::None;
            },
        };
        if !(oh < 24 && om < 60) {
            return Option::None;
        }
        let off = oh as i64 * 3600 + om as i64 * 60;
        if chars[fe] == '-' {
            return Option::Some((base + off) * 1000 + ms_frac);
        } else {
            return Option::Some((base - off) * 1000 + ms_frac);
        }
    }
    Option::None
}

/// A subrange of an all-digit run is all digits.
proof fn lemma_digits_subrange(s: Seq<char>, a: int, b: int, c: int, d: int)
    requires
        0 <= a <= c <= d <= b <= s.len(),
        all_digits(s.subrange(a, b)),
    ensures
        all_digits(s.subrange(c, d)),
{
    assert forall|i: int| 0 <= i < d - c implies is_digit_char(#[trigger] s.subrange(c, d)[i]) by {
        assert(s.subrange(c, d)[i] == s.subrange(a, b)[i + c - a]);
    }
}

/// The core parser's validity condition is `naive_dt_valid` of the prefix.
proof fn lemma_core_covers_prefix(s: Seq<char>)
    requires
        s.len() >= 19,
    ensures
        naive_dt_valid(s.subrange(0, 19)) == (s[4] == '-' && s[7] == '-' && s[10] == 'T' && s[13]
            == ':' && s[16] == ':' && all_digits(s.subrange(0, 4)) && all_digits(s.subrange(5, 7))
            && all_digits(s.subrange(8, 10)) && all_digits(s.subrange(11, 13)) && all_digits(
            s.subrange(14, 16),
        ) && all_digits(s.subrange(17, 19)) && 1 <= exif_dt_month(s) <= 12 && 1 <= exif_dt_day(s)
            <= spec_days_in_month(exif_dt_year(s), exif_dt_month(s)) && exif_dt_hour(s) < 24
            && exif_dt_minute(s) < 60 && exif_dt_second(s) < 60),
        naive_dt_valid(s.subrange(0, 19)) ==> spec_dt_secs(s.subrange(0, 19)) == spec_dt_secs(s),
{
    let p = s.subrange(0, 19);
    assert(p.subrange(0, 4) =~= s.subrange(0, 4));
    assert(p.subrange(5, 7) =~= s.subrange(5, 7));
    assert(p.subrange(8, 10) =~= s.subrange(8, 10));
    assert(p.subrange(11, 13) =~= s.subrange(11, 13));
    assert(p.subrange(14, 16) =~= s.subrange(14, 16));
    assert(p.subrange(17, 19) =~= s.subrange(17, 19));
}


/// The instant one EXIF entry contributes: embedded-format strings, or the
/// two non-string shapes recognized by their debug prefix, on the two
/// originating-date tags only.
pub open spec fn spec_datetime_of_entry(e: ExifEntry) -> Option<int> {
    if !e.is_datetime_tag {
        Option::None
    } else {
        match e.value {
            RawExifValue::Text(s) => spec_parse_exif_datetime(s@),
            RawExifValue::Other(s) => {
                if has_prefix(s@, "Time("@) && s@.len() >= 6 && s@.last() == ')' {
                    spec_parse_rfc3339(s@.subrange(5, s@.len() - 1))
                } else if has_prefix(s@, "NaiveDateTime("@) && s@.len() >= 15 && s@.last()
                    == ')' {
                    spec_parse_naive_datetime(s@.subrange(14, s@.len() - 1))
                } else {
                    Option::None
                }
            },
            _ => Option::None,
        }
    }
}

pub fn entry_datetime(e: &ExifEntry) -> (r: Option<i64>)
    ensures
        match r {
            Option::Some(ms) => spec_datetime_of_entry(*e) == Option::Some(ms as int),
            Option::None => spec_datetime_of_entry(*e) is None,
        },
{
    proof {
        reveal_strlit("Time(");
        reveal_strlit("NaiveDateTime(");
    }
    if !e.is_datetime_tag {
        return Option::None;
    }
    match &e.value {
        RawExifValue::Text(s) => {
            let chars = str_to_chars(s.as_str());
            parse_exif_datetime(&chars)
        },
        RawExifValue::Other(s) => {
            let chars = str_to_chars(s.as_str());
            let n = chars.len();
            if has_prefix_exec(&chars, "Time(") && n >= 6 && chars[n - 1] == ')' {
                let inner = copy_range(&chars, 5, n - 1);
                parse_rfc3339(&inner)
            } else if has_prefix_exec(&chars, "NaiveDateTime(") && n >= 15 && chars[n - 1]
                == ')' {
                let inner = copy_range(&chars, 14, n - 1);
                if inner.len() != 19 {
                    return Option::None;
                }
                match parse_dt_core(&inner, '-', 'T', ':') {
                    Option::Some(secs) => {
                        proof {
                            lemma_core_covers_prefix(inner@);
                            assert(inner@.subrange(0, 19) =~= inner@);
                        }
                        Option::Some(secs * 1000)
                    },
                    Option::None => {
                        proof {
                            lemma_core_covers_prefix(inner@);
                            assert(inner@.subrange(0, 19) =~= inner@);
                        }
                        Option::None
                    },
                }
            } else {
                Option::None
            }
        },
        _ => Option::None,
    }
}

/// The last originating-date instant the entries carry, scanning in order:
/// a later entry wins.
pub open spec fn spec_last_datetime(es: Seq<ExifEntry>) -> Option<int>
    decreases es.len(),
{
    if es.len() == 0 {
        Option::None
    } else {
        match spec_datetime_of_entry(es.last()) {
            Option::Some(ms) => Option::Some(ms),
            Option::None => spec_last_datetime(es.drop_last()),
        }
    }
}

/// The tag map after storing every entry in order.
pub open spec fn spec_fold_meta(
    m0: Seq<(Seq<char>, MetaValV)>,
    es: Seq<ExifEntry>,
) -> Seq<(Seq<char>, MetaValV)>
    decreases es.len(),
{
    if es.len() == 0 {
        m0
    } else {
        crate::context::spec_meta_insert(
            spec_fold_meta(m0, es.drop_last()),
            es.last().tag_name@,
            spec_meta_of_raw(es.last().value),
        )
    }
}

/// The tag pass: stores every entry in the tag map and lets the last
/// originating-date entry set the time block.
pub fn apply_exif_entries(ctx: &mut MediaContext, entries: &Vec<ExifEntry>)
    ensures
        final(ctx)@.meta == spec_fold_meta(old(ctx)@.meta, entries@),
        final(ctx)@.time == match spec_last_datetime(entries@) {
            Option::Some(ms) => spec_time_context_v(ms),
            Option::None => old(ctx)@.time,
        },
        final(ctx)@.source == old(ctx)@.source,
        final(ctx)@.space == old(ctx)@.space,
        final(ctx)@.special == old(ctx)@.special,
        final(ctx)@.media_type == old(ctx)@.media_type,
{
    let n = entries.len();
    let mut i: usize = 0;
    proof {
        assert(entries@.subrange(0, 0) =~= Seq::<ExifEntry>::empty());
    }
    while i < n
        invariant
            i <= n,
            n == entries@.len(),
            ctx@.meta == spec_fold_meta(old(ctx)@.meta, entries@.subrange(0, i as int)),
            ctx@.time == match spec_last_datetime(entries@.subrange(0, i as int)) {
                Option::Some(ms) => spec_time_context_v(ms),
                Option::None => old(ctx)@.time,
            },
            ctx@.source == old(ctx)@.source,
            ctx@.space == old(ctx)@.space,
            ctx@.special == old(ctx)@.special,
            ctx@.media_type == old(ctx)@.media_type,
        decreases n - i,
    {
        let e = &entries[i];
        ctx.meta.insert(e.tag_name.clone(), meta_value_of_raw(&e.value));
        match entry_datetime(e) {
            Option::Some(ms) => {
                ctx.time = time_context_from_ms(ms);
            },
            Option::None => {},
        }
        proof {
            assert(entries@.subrange(0, i + 1 as int).drop_last() =~= entries@.subrange(
                0,
                i as int,
            ));
            assert(entries@.subrange(0, i + 1 as int).last() == entries@[i as int]);
        }
        i += 1;
    }
    proof {
        assert(entries@.subrange(0, n as int) =~= entries@);
    }
}

/// The GPS pass: when both axes convert, records the E7 coordinates and the
/// altitude, and reports the coordinates for geocoding.
pub fn apply_gps(ctx: &mut MediaContext, gps: &RawGps) -> (r: Option<(i64, i64)>)
    ensures
        ({
            let latv = spec_gps_axis_e7(gps.lat_deg, gps.lat_min, gps.lat_sec, gps.lat_south);
            let lonv = spec_gps_axis_e7(gps.lon_deg, gps.lon_min, gps.lon_sec, gps.lon_west);
            match (latv, lonv) {
                (Option::Some(la), Option::Some(lo)) => {
                    &&& final(ctx)@.space.lat_e7 == la
                    &&& final(ctx)@.space.lon_e7 == lo
                    &&& final(ctx)@.space.altitude_e3 == spec_alt_e3(gps.alt)
                    &&& final(ctx)@.space.country == old(ctx)@.space.country
                    &&& final(ctx)@.space.country_code == old(ctx)@.space.country_code
                    &&& final(ctx)@.space.state == old(ctx)@.space.state
                    &&& final(ctx)@.space.city == old(ctx)@.space.city
                    &&& final(ctx)@.space.district == old(ctx)@.space.district
                    &&& final(ctx)@.space.road == old(ctx)@.space.road
                    &&& r == Option::<(i64, i64)>::Some((la as i64, lo as i64))
                },
                _ => final(ctx)@.space == old(ctx)@.space && r is None,
            }
        }),
        final(ctx)@.time == old(ctx)@.time,
        final(ctx)@.source == old(ctx)@.source,
        final(ctx)@.special == old(ctx)@.special,
        final(ctx)@.media_type == old(ctx)@.media_type,
        final(ctx)@.meta == old(ctx)@.meta,
{
    let lat = gps_axis_e7(gps.lat_deg, gps.lat_min, gps.lat_sec, gps.lat_south);
    let lon = gps_axis_e7(gps.lon_deg, gps.lon_min, gps.lon_sec, gps.lon_west);
    match (lat, lon) {
        (Option::Some(la), Option::Some(lo)) => {
            ctx.space.lat_e7 = la;
            ctx.space.lon_e7 = lo;
            ctx.space.altitude_e3 = alt_e3(gps.alt);
            Option::Some((la, lo))
        },
        _ => Option::None,
    }
}

/// City and country are set together: both the unknown sentinel or neither.
pub open spec fn space_names_tied(s: crate::context::SpaceContextV) -> bool {
    (s.city == "unknown"@) == (s.country == "unknown"@)
}

/// Installs the geocoder's administrative names, preserving the computed
/// coordinates; the altitude survives only when the caller says so (the
/// history fallback drops it). Relies on the caller handing names that are
/// set together.
pub fn install_geo_names(
    ctx: &mut MediaContext,
    country: String,
    country_code: String,
    state: String,
    city: String,
    keep_altitude: bool,
)
    requires
        (city@ == "unknown"@) == (country@ == "unknown"@),
    ensures
        final(ctx)@.space.country == country@,
        final(ctx)@.space.country_code == country_code@,
        final(ctx)@.space.state == state@,
        final(ctx)@.space.city == city@,
        final(ctx)@.space.district == Seq::<char>::empty(),
        final(ctx)@.space.road == Seq::<char>::empty(),
        final(ctx)@.space.lat_e7 == old(ctx)@.space.lat_e7,
        final(ctx)@.space.lon_e7 == old(ctx)@.space.lon_e7,
        final(ctx)@.space.altitude_e3 == if keep_altitude {
            old(ctx)@.space.altitude_e3
        } else {
            Option::<int>::None
        },
        space_names_tied(final(ctx)@.space),
        final(ctx)@.time == old(ctx)@.time,
        final(ctx)@.source == old(ctx)@.source,
        final(ctx)@.special == old(ctx)@.special,
        final(ctx)@.media_type == old(ctx)@.media_type,
        final(ctx)@.meta == old(ctx)@.meta,
{
    let altitude_e3: Option<i64> = if keep_altitude {
        ctx.space.altitude_e3
    } else {
        Option::None
    };
    ctx.space = crate::context::SpaceContext {
        country,
        country_code,
        state,
        city,
        district: String::new(),
        road: String::new(),
        lat_e7: ctx.space.lat_e7,
        lon_e7: ctx.space.lon_e7,
        altitude_e3,
    };
}

pub open spec fn spec_has_width(m: Seq<(Seq<char>, MetaValV)>) -> bool {
    meta_lookup(m, "ImageWidth"@) is Some || meta_lookup(m, "ExifImageWidth"@) is Some
}

pub open spec fn spec_has_height(m: Seq<(Seq<char>, MetaValV)>) -> bool {
    meta_lookup(m, "ImageHeight"@) is Some || meta_lookup(m, "ExifImageHeight"@) is Some
}

/// Whether the raster dimensions are still missing from the tag map, so the
/// caller should read the image header.
pub fn needs_dimension_fallback(ctx: &MediaContext) -> (r: bool)
    ensures
        r == (!spec_has_width(ctx@.meta) || !spec_has_height(ctx@.meta)),
{
    let has_w = ctx.meta.contains_key("ImageWidth") || ctx.meta.contains_key("ExifImageWidth");
    let has_h = ctx.meta.contains_key("ImageHeight") || ctx.meta.contains_key("ExifImageHeight");
    !has_w || !has_h
}

/// The tag map after the dimension fallback: each missing dimension tag is
/// stored from the decoded header.
pub open spec fn spec_apply_dims(
    m: Seq<(Seq<char>, MetaValV)>,
    w: u32,
    h: u32,
) -> Seq<(Seq<char>, MetaValV)> {
    let m1 = if spec_has_width(m) {
        m
    } else {
        crate::context::spec_meta_insert(m, "ImageWidth"@, MetaValV::Int(w as int))
    };
    if spec_has_height(m) {
        m1
    } else {
        crate::context::spec_meta_insert(m1, "ImageHeight"@, MetaValV::Int(h as int))
    }
}

/// Stores decoded raster dimensions under the tags the file did not carry.
pub fn apply_dimension_fallback(ctx: &mut MediaContext, width: u32, height: u32)
    ensures
        final(ctx)@.meta == spec_apply_dims(old(ctx)@.meta, width, height),
        final(ctx)@.time == old(ctx)@.time,
        final(ctx)@.space == old(ctx)@.space,
        final(ctx)@.source == old(ctx)@.source,
        final(ctx)@.special == old(ctx)@.special,
        final(ctx)@.media_type == old(ctx)@.media_type,
{
    let has_w = ctx.meta.contains_key("ImageWidth") || ctx.meta.contains_key("ExifImageWidth");
    let has_h = ctx.meta.contains_key("ImageHeight") || ctx.meta.contains_key("ExifImageHeight");
    if !has_w {
        ctx.meta.insert(String::from_str("ImageWidth"), MetaValue::Int(width as i64));
    }
    if !has_h {
        proof {
            if !spec_has_width(old(ctx)@.meta) {
                crate::context::lemma_meta_lookup_insert(
                    old(ctx)@.meta,
                    "ImageWidth"@,
                    MetaValV::Int(width as int),
                    "ImageHeight"@,
                );
                crate::context::lemma_meta_lookup_insert(
                    old(ctx)@.meta,
                    "ImageWidth"@,
                    MetaValV::Int(width as int),
                    "ExifImageHeight"@,
                );
                proof_strings_distinct();
            }
        }
        ctx.meta.insert(String::from_str("ImageHeight"), MetaValue::Int(height as i64));
    }
}

/// The dimension tag names are pairwise distinct.
proof fn proof_strings_distinct()
    ensures
        "ImageHeight"@ != "ImageWidth"@,
        "ExifImageHeight"@ != "ImageWidth"@,
{
    reveal_strlit("ImageHeight");
    reveal_strlit("ImageWidth");
    reveal_strlit("ExifImageHeight");
    assert("ImageHeight"@.len() != "ImageWidth"@.len() || "ImageHeight"@[0] != "ImageWidth"@[0]);
    assert("ExifImageHeight"@.len() != "ImageWidth"@.len());
}


/// The year/month/day ranges a filename date must satisfy.
pub open spec fn filename_ymd_valid(y: int, mo: int, d: int) -> bool {
    &&& 1900 <= y <= 2100
    &&& 1 <= mo <= 12
    &&& 1 <= d <= 31
    &&& d <= spec_days_in_month(y, mo)
}

/// Does an eight-digit `YYYYMMDD` window carrying a valid date start at `i`?
pub open spec fn date8_at(s: Seq<char>, i: int) -> bool {
    &&& 0 <= i
    &&& i + 8 <= s.len()
    &&& all_digits(s.subrange(i, i + 8))
    &&& filename_ymd_valid(
        spec_digits_val(s.subrange(i, i + 4)) as int,
        spec_digits_val(s.subrange(i + 4, i + 6)) as int,
        spec_digits_val(s.subrange(i + 6, i + 8)) as int,
    )
}

/// The first position of a valid eight-digit date window, or -1.
pub open spec fn find_date8(s: Seq<char>, i: int) -> int
    decreases s.len() - i,
{
    if i < 0 || i + 8 > s.len() {
        -1
    } else if date8_at(s, i) {
        i
    } else {
        find_date8(s, i + 1)
    }
}

pub open spec fn is_sep_char(c: char) -> bool {
    c == '-' || c == ' ' || c == '.'
}

/// First separator position at or after `i`, or -1.
pub open spec fn first_sep(s: Seq<char>, i: int) -> int
    decreases s.len() - i,
{
    if i < 0 || i >= s.len() {
        -1
    } else if is_sep_char(s[i]) {
        i
    } else {
        first_sep(s, i + 1)
    }
}

/// One numeric split part: nonempty, all digits, value in the given range.
pub open spec fn part_val_in(s: Seq<char>, lo: int, hi: int) -> bool {
    s.len() > 0 && all_digits(s) && lo <= spec_digits_val(s) <= hi
}

/// The instant of a `YYYY-MM-DD`-shaped filename prefix (the separators may
/// be dashes, dots or spaces, in any mix), at midnight UTC.
pub open spec fn spec_prefix_date_ms(s: Seq<char>) -> Option<int> {
    let i0 = first_sep(s, 0);
    if i0 < 0 {
        Option::None
    } else {
        let i1 = first_sep(s, i0 + 1);
        if i1 < 0 {
            Option::None
        } else {
            let i2 = first_sep(s, i1 + 1);
            let p0 = s.subrange(0, i0);
            let p1 = s.subrange(i0 + 1, i1);
            let p2 = if i2 < 0 {
                s.skip(i1 + 1)
            } else {
                s.subrange(i1 + 1, i2)
            };
            if part_val_in(p0, 1900, 2100) && part_val_in(p1, 1, 12) && part_val_in(p2, 1, 31)
                && spec_digits_val(p2) <= spec_days_in_month(
                spec_digits_val(p0) as int,
                spec_digits_val(p1) as int,
            ) {
                Option::Some(
                    days_from_civil(
                        spec_digits_val(p0) as int,
                        spec_digits_val(p1) as int,
                        spec_digits_val(p2) as int,
                    ) * 86400000,
                )
            } else {
                Option::None
            }
        }
    }
}

/// The date a media basename carries: the first valid eight-digit window,
/// else the separated prefix form; midnight UTC.
pub open spec fn spec_date_from_filename(s: Seq<char>) -> Option<int> {
    let i = find_date8(s, 0);
    if i >= 0 {
        Option::Some(
            days_from_civil(
                spec_digits_val(s.subrange(i, i + 4)) as int,
                spec_digits_val(s.subrange(i + 4, i + 6)) as int,
                spec_digits_val(s.subrange(i + 6, i + 8)) as int,
            ) * 86400000,
        )
    } else {
        spec_prefix_date_ms(s)
    }
}

fn first_sep_exec(chars: &Vec<char>, from: usize) -> (r: Option<usize>)
    requires
        from <= chars@.len(),
    ensures
        match r {
            Option::Some(i) => first_sep(chars@, from as int) == i && from <= i < chars@.len()
                && is_sep_char(chars@[i as int]),
            Option::None => first_sep(chars@, from as int) == -1,
        },
{
    let n = chars.len();
    let mut i = from;
    while i < n
        invariant
            from <= i <= n,
            n == chars@.len(),
            first_sep(chars@, from as int) == first_sep(chars@, i as int),
        decreases n - i,
    {
        let c = chars[i];
        if c == '-' || c == ' ' || c == '.' {
            return Option::Some(i);
        }
        i += 1;
    }
    Option::None
}

/// Parses the digits of `chars[a..b]` when they form a value in
/// `lo..=hi`.
fn parse_part_in(chars: &Vec<char>, a: usize, b: usize, lo: u64, hi: u64) -> (r: Option<u64>)
    requires
        a <= b <= chars@.len(),
    ensures
        match r {
            Option::Some(v) => part_val_in(chars@.subrange(a as int, b as int), lo as int, hi as int)
                && v == spec_digits_val(chars@.subrange(a as int, b as int)),
            Option::None => !part_val_in(chars@.subrange(a as int, b as int), lo as int, hi as int),
        },
{
    match parse_u64_range(chars, a, b) {
        Option::Some(v) => {
            if lo <= v && v <= hi {
                Option::Some(v)
            } else {
                Option::None
            }
        },
        Option::None => Option::None,
    }
}

/// The window check and date build at one candidate position.
fn try_date8(chars: &Vec<char>, i: usize) -> (r: Option<i64>)
    requires
        i + 8 <= chars@.len(),
    ensures
        match r {
            Option::Some(ms) => date8_at(chars@, i as int) && ms == days_from_civil(
                spec_digits_val(chars@.subrange(i as int, i + 4)) as int,
                spec_digits_val(chars@.subrange(i + 4, i + 6)) as int,
                spec_digits_val(chars@.subrange(i + 6, i + 8)) as int,
            ) * 86400000,
            Option::None => !date8_at(chars@, i as int),
        },
{
    let n = chars.len();
    proof {
        assert(i + 8 <= n);
    }
    let y = match parse_part_in(chars, i, i + 4, 1900, 2100) {
        Option::Some(v) => v,
        Option::None => {
            proof {
                lemma_window_digits(chars@, i as int);
            }
            return Option::None;
        },
    };
    let mo = match parse_part_in(chars, i + 4, i + 6, 1, 12) {
        Option::Some(v) => v,
        Option::None => {
            proof {
                lemma_window_digits(chars@, i as int);
            }
            return Option::None;
        },
    };
    let d = match parse_part_in(chars, i + 6, i + 8, 1, 31) {
        Option::Some(v) => v,
        Option::None => {
            proof {
                lemma_window_digits(chars@, i as int);
            }
            return Option::None;
        },
    };
    if d > days_in_month_exec(y as i64, mo) as u64 {
        return Option::None;
    }
    proof {
        lemma_window_digits(chars@, i as int);
    }
    let days = crate::calendar::days_from_civil_exec(y as i64, mo, d);
    Option::Some(days * 86400000)
}

/// The eight-digit window is all digits exactly when its three pieces are.
proof fn lemma_window_digits(s: Seq<char>, i: int)
    requires
        0 <= i,
        i + 8 <= s.len(),
    ensures
        all_digits(s.subrange(i, i + 8)) == (all_digits(s.subrange(i, i + 4)) && all_digits(
            s.subrange(i + 4, i + 6),
        ) && all_digits(s.subrange(i + 6, i + 8))),
{
    let w = s.subrange(i, i + 8);
    if all_digits(w) {
        assert forall|k: int| 0 <= k < 4 implies is_digit_char(#[trigger] s.subrange(i, i + 4)[k])
            by {
            assert(s.subrange(i, i + 4)[k] == w[k]);
        }
        assert forall|k: int| 0 <= k < 2 implies is_digit_char(
            #[trigger] s.subrange(i + 4, i + 6)[k],
        ) by {
            assert(s.subrange(i + 4, i + 6)[k] == w[k + 4]);
        }
        assert forall|k: int| 0 <= k < 2 implies is_digit_char(
            #[trigger] s.subrange(i + 6, i + 8)[k],
        ) by {
            assert(s.subrange(i + 6, i + 8)[k] == w[k + 6]);
        }
    }
    if all_digits(s.subrange(i, i + 4)) && all_digits(s.subrange(i + 4, i + 6)) && all_digits(
        s.subrange(i + 6, i + 8),
    ) {
        assert forall|k: int| 0 <= k < 8 implies is_digit_char(#[trigger] w[k]) by {
            if k < 4 {
                assert(w[k] == s.subrange(i, i + 4)[k]);
            } else if k < 6 {
                assert(w[k] == s.subrange(i + 4, i + 6)[k - 4]);
            } else {
                assert(w[k] == s.subrange(i + 6, i + 8)[k - 6]);
            }
        }
    }
}

/// Scans a media basename for a date: the first valid eight-digit
/// `YYYYMMDD` window, else a `YYYY-MM-DD`-style prefix whose separators may
/// be dashes, dots or spaces. Years outside 1900..=2100 are rejected.
pub fn extract_date_from_filename(name: &str) -> (r: Option<i64>)
    ensures
        match r {
            Option::Some(ms) => spec_date_from_filename(name@) == Option::Some(ms as int),
            Option::None => spec_date_from_filename(name@) is None,
        },
{
    let chars = str_to_chars(name);
    let n = chars.len();
    let mut i: usize = 0;
    while n >= 8 && i <= n - 8
        invariant
            i <= n,
            n == chars@.len(),
            chars@ == name@,
            find_date8(chars@, 0) == find_date8(chars@, i as int),
        decreases n - i,
    {
        match try_date8(&chars, i) {
            Option::Some(ms) => {
                return Option::Some(ms);
            },
            Option::None => {},
        }
        i += 1;
    }
    proof {
        assert(find_date8(chars@, i as int) == -1);
    }
    let i0 = match first_sep_exec(&chars, 0) {
        Option::Some(v) => v,
        Option::None => {
            return Option::None;
        },
    };
    let i1 = match first_sep_exec(&chars, i0 + 1) {
        Option::Some(v) => v,
        Option::None => {
            return Option::None;
        },
    };
    let p2_end: usize = match first_sep_exec(&chars, i1 + 1) {
        Option::Some(v) => v,
        Option::None => n,
    };
    proof {
        if first_sep(chars@, i1 + 1 as int) < 0 {
            assert(chars@.subrange(i1 + 1 as int, n as int) =~= chars@.skip(i1 + 1 as int));
        }
    }
    let y = match parse_part_in(&chars, 0, i0, 1900, 2100) {
        Option::Some(v) => v,
        Option::None => {
            return Option::None;
        },
    };
    let mo = match parse_part_in(&chars, i0 + 1, i1, 1, 12) {
        Option::Some(v) => v,
        Option::None => {
            return Option::None;
        },
    };
    let d = match parse_part_in(&chars, i1 + 1, p2_end, 1, 31) {
        Option::Some(v) => v,
        Option::None => {
            return Option::None;
        },
    };
    if d > days_in_month_exec(y as i64, mo) as u64 {
        return Option::None;
    }
    let days = crate::calendar::days_from_civil_exec(y as i64, mo, d);
    Option::Some(days * 86400000)
}

/// The time block after the two time fallbacks: a filename date for videos
/// still missing a timestamp, else the filesystem creation instant.
pub open spec fn spec_time_after_fallbacks(
    t: TimeContextV,
    media_type: Seq<char>,
    basename: Seq<char>,
    created_ms: Option<int>,
) -> TimeContextV {
    if t.timestamp is None && media_type == "video"@ && spec_date_from_filename(
        basename,
    ) is Some {
        spec_time_context_v(spec_date_from_filename(basename)->Some_0)
    } else if t.timestamp is None && created_ms is Some {
        spec_time_context_v(created_ms->Some_0)
    } else {
        t
    }
}

/// Applies the filename-date and filesystem-time fallbacks to the time
/// block.
pub fn apply_time_fallbacks(ctx: &mut MediaContext, created_ms: Option<i64>)
    ensures
        final(ctx)@.time == spec_time_after_fallbacks(
            old(ctx)@.time,
            old(ctx)@.media_type,
            old(ctx)@.source.original,
            match created_ms {
                Option::Some(t) => Option::Some(t as int),
                Option::None => Option::None,
            },
        ),
        final(ctx)@.source == old(ctx)@.source,
        final(ctx)@.space == old(ctx)@.space,
        final(ctx)@.special == old(ctx)@.special,
        final(ctx)@.media_type == old(ctx)@.media_type,
        final(ctx)@.meta == old(ctx)@.meta,
{
    if ctx.time.timestamp.is_none() && crate::text::str_eq(ctx.media_type.as_str(), "video") {
        match extract_date_from_filename(ctx.source.original.as_str()) {
            Option::Some(ms) => {
                ctx.time = time_context_from_ms(ms);
                return ;
            },
            Option::None => {},
        }
    }
    if ctx.time.timestamp.is_none() {
        match created_ms {
            Option::Some(ms) => {
                ctx.time = time_context_from_ms(ms);
            },
            Option::None => {},
        }
    }
}

/// No coordinate source has succeeded yet.
pub fn needs_gps_fallback(ctx: &MediaContext) -> (r: bool)
    ensures
        r == (ctx@.space.lat_e7 == 0 && ctx@.space.lon_e7 == 0),
{
    ctx.space.lat_e7 == 0 && ctx.space.lon_e7 == 0
}

/// An instant as the unsigned milliseconds the history is indexed by
/// (wrapping, as a two's-complement reinterpretation).
pub open spec fn spec_wrap_u64(t: int) -> int {
    if t >= 0 {
        t
    } else {
        t + 0x1_0000_0000_0000_0000
    }
}

/// The history lookup target: the context's timestamp in unsigned
/// milliseconds, when one is set.
pub fn history_target_ms(ctx: &MediaContext) -> (r: Option<u64>)
    ensures
        match r {
            Option::Some(t) => ctx@.time.timestamp is Some && t == spec_wrap_u64(
                ctx@.time.timestamp->Some_0,
            ),
            Option::None => ctx@.time.timestamp is None,
        },
{
    match ctx.time.timestamp {
        Option::Some(t) => {
            if t >= 0 {
                Option::Some(t as u64)
            } else {
                let nm = (-(t + 1)) as u64;
                Option::Some(u64::MAX - nm)
            }
        },
        Option::None => Option::None,
    }
}

/// Adopts a history point's coordinates, leaving every other field alone.
pub fn set_history_point(ctx: &mut MediaContext, p: crate::location_history::LocationPoint)
    ensures
        final(ctx)@.space.lat_e7 == p.latitude_e7 as int,
        final(ctx)@.space.lon_e7 == p.longitude_e7 as int,
        final(ctx)@.space.country == old(ctx)@.space.country,
        final(ctx)@.space.country_code == old(ctx)@.space.country_code,
        final(ctx)@.space.state == old(ctx)@.space.state,
        final(ctx)@.space.city == old(ctx)@.space.city,
        final(ctx)@.space.district == old(ctx)@.space.district,
        final(ctx)@.space.road == old(ctx)@.space.road,
        final(ctx)@.space.altitude_e3 == old(ctx)@.space.altitude_e3,
        final(ctx)@.time == old(ctx)@.time,
        final(ctx)@.source == old(ctx)@.source,
        final(ctx)@.special == old(ctx)@.special,
        final(ctx)@.media_type == old(ctx)@.media_type,
        final(ctx)@.meta == old(ctx)@.meta,
{
    ctx.space.lat_e7 = p.latitude_e7 as i64;
    ctx.space.lon_e7 = p.longitude_e7 as i64;
}

/// The calendar strings an unknown time takes, with no instant.
pub open spec fn time_is_default(t: TimeContextV) -> bool {
    &&& t.yyyy == "unknown"@
    &&& t.mm == "00"@
    &&& t.dd == "00"@
    &&& t.hh == "00"@
    &&& t.minute == "00"@
    &&& t.ss == "00"@
    &&& t.month_name == "Unknown"@
    &&& t.weekday == "Unknown"@
    &&& t.timestamp is None
}

/// Either an instant is present and every decomposed string agrees with it
/// in UTC, or the strings are the unknown defaults.
pub open spec fn time_wf(t: TimeContextV) -> bool {
    (exists|ms: int| t == spec_time_context_v(ms)) || time_is_default(t)
}

/// A time block the extraction phases can produce: untouched, or set from
/// an instant.
pub open spec fn time_partial_wf(t: TimeContextV) -> bool {
    t == crate::context::time_context_v_default() || (exists|ms: int|
        t == spec_time_context_v(ms))
}

/// Fills the unknown defaults: the calendar strings when no timestamp was
/// found, the unknown place names when no coordinate source succeeded.
/// Afterwards the time block is well-formed and city and country are the
/// unknown sentinel together.
///
/// The unknown names and the zero coordinates normally appear together: a
/// coordinate source that succeeds installs names in the same step, and a
/// failed one leaves both at their zero/empty defaults. The correspondence
/// is not stated as a contract because a genuine fix at zero latitude and
/// zero longitude would carry real names with zero coordinates.
pub fn apply_defaults(ctx: &mut MediaContext)
    requires
        time_partial_wf(old(ctx)@.time),
        space_names_tied(old(ctx)@.space),
    ensures
        time_wf(final(ctx)@.time),
        (final(ctx)@.space.city == "unknown"@) == (final(ctx)@.space.country == "unknown"@),
        final(ctx)@.time == if old(ctx)@.time.yyyy.len() == 0 {
            TimeContextV {
                yyyy: "unknown"@,
                mm: "00"@,
                dd: "00"@,
                hh: "00"@,
                minute: "00"@,
                ss: "00"@,
                month_name: "Unknown"@,
                weekday: "Unknown"@,
                ..old(ctx)@.time
            }
        } else {
            old(ctx)@.time
        },
        final(ctx)@.space == if old(ctx)@.space.city.len() == 0 {
            crate::context::SpaceContextV {
                city: "unknown"@,
                country: "unknown"@,
                ..old(ctx)@.space
            }
        } else {
            old(ctx)@.space
        },
        final(ctx)@.source == old(ctx)@.source,
        final(ctx)@.special == old(ctx)@.special,
        final(ctx)@.media_type == old(ctx)@.media_type,
        final(ctx)@.meta == old(ctx)@.meta,
{
    proof {
        reveal_strlit("unknown");
    }
    if ctx.time.yyyy.as_str().is_empty() {
        proof {
            if exists|ms: int| old(ctx)@.time == spec_time_context_v(ms) {
                let ms = choose|ms: int| old(ctx)@.time == spec_time_context_v(ms);
                crate::text::lemma_u64_digits_nonempty(
                    (if spec_civil_of_ms(ms).year as int >= 0 {
                        spec_civil_of_ms(ms).year as int
                    } else {
                        -(spec_civil_of_ms(ms).year as int)
                    }) as nat,
                );
                assert(false);
            }
        }
        ctx.time.yyyy = String::from_str("unknown");
        ctx.time.mm = String::from_str("00");
        ctx.time.dd = String::from_str("00");
        ctx.time.hh = String::from_str("00");
        ctx.time.minute = String::from_str("00");
        ctx.time.ss = String::from_str("00");
        ctx.time.month_name = String::from_str("Unknown");
        ctx.time.weekday = String::from_str("Unknown");
    }
    if ctx.space.city.as_str().is_empty() {
        ctx.space.city = String::from_str("unknown");
        ctx.space.country = String::from_str("unknown");
    }
}

/// The initial extraction stage: source facts, media type, and — when the
/// file carried EXIF — the tag pass, the originating date, and the GPS
/// block. The result pairs the context with the coordinates to geocode,
/// when GPS was found.
pub fn extract_stage_initial(facts: &FileFacts) -> (r: (MediaContext, Option<(i64, i64)>))
    ensures
        r.0@.source.path == if crate::pipeline::spec_parent(facts.path@).len() == 0 {
            "."@
        } else {
            crate::pipeline::spec_parent(facts.path@)
        },
        r.0@.source.name == if crate::pipeline::spec_stem(
            crate::pipeline::spec_basename(facts.path@),
        ).len() == 0 {
            "unknown"@
        } else {
            crate::pipeline::spec_stem(crate::pipeline::spec_basename(facts.path@))
        },
        r.0@.source.extension == crate::pipeline::spec_extension(
            crate::pipeline::spec_basename(facts.path@),
        ),
        r.0@.source.original == if crate::pipeline::spec_basename(facts.path@).len() == 0 {
            "unknown"@
        } else {
            crate::pipeline::spec_basename(facts.path@)
        },
        r.0@.source.size == facts.size,
        r.0@.media_type == crate::pipeline::spec_media_type(
            match facts.mime {
                Option::Some(m) => Option::Some(m@),
                Option::None => Option::None,
            },
        ),
        r.0@.meta == match facts.exif {
            Option::Some(entries) => spec_fold_meta(
                Seq::<(Seq<char>, MetaValV)>::empty(),
                entries@,
            ),
            Option::None => Seq::<(Seq<char>, MetaValV)>::empty(),
        },
        r.0@.time == match facts.exif {
            Option::Some(entries) => match spec_last_datetime(entries@) {
                Option::Some(ms) => spec_time_context_v(ms),
                Option::None => crate::context::time_context_v_default(),
            },
            Option::None => crate::context::time_context_v_default(),
        },
        time_partial_wf(r.0@.time),
        r.0@.special == crate::context::special_context_v_default(),
        ({
            let gps_out = match facts.gps {
                Option::Some(g) => {
                    match (
                        spec_gps_axis_e7(g.lat_deg, g.lat_min, g.lat_sec, g.lat_south),
                        spec_gps_axis_e7(g.lon_deg, g.lon_min, g.lon_sec, g.lon_west),
                    ) {
                        (Option::Some(la), Option::Some(lo)) => Option::Some(
                            (la, lo, spec_alt_e3(g.alt)),
                        ),
                        _ => Option::None,
                    }
                },
                Option::None => Option::None,
            };
            match gps_out {
                Option::Some((la, lo, alt)) => {
                    &&& r.0@.space.lat_e7 == la
                    &&& r.0@.space.lon_e7 == lo
                    &&& r.0@.space.altitude_e3 == alt
                    &&& r.0@.space.country == Seq::<char>::empty()
                    &&& r.0@.space.country_code == Seq::<char>::empty()
                    &&& r.0@.space.state == Seq::<char>::empty()
                    &&& r.0@.space.city == Seq::<char>::empty()
                    &&& r.0@.space.district == Seq::<char>::empty()
                    &&& r.0@.space.road == Seq::<char>::empty()
                    &&& r.1 == Option::<(i64, i64)>::Some((la as i64, lo as i64))
                },
                Option::None => r.0@.space == crate::context::space_context_v_default() && r.1
                    is None,
            }
        }),
        space_names_tied(r.0@.space),
{
    proof {
        reveal_strlit("unknown");
    }
    let mut ctx = MediaContext::empty();
    ctx.source = crate::pipeline::source_context_from_path(facts.path.as_str(), facts.size);
    ctx.media_type = crate::pipeline::media_type_from_mime(
        match &facts.mime {
            Option::Some(m) => Option::Some(m.as_str()),
            Option::None => Option::None,
        },
    );
    match &facts.exif {
        Option::Some(entries) => {
            apply_exif_entries(&mut ctx, entries);
        },
        Option::None => {},
    }
    let geo_req: Option<(i64, i64)> = match &facts.gps {
        Option::Some(g) => apply_gps(&mut ctx, g),
        Option::None => Option::None,
    };
    (ctx, geo_req)
}

/// The non-GPS fallback stage: raster dimensions into the tag map where the
/// file carried none, then the filename-date and filesystem-time fallbacks.
pub fn extract_stage_fallbacks(ctx: &mut MediaContext, facts: &FileFacts)
    ensures
        final(ctx)@.meta == match facts.dimensions {
            Option::Some((w, h)) => spec_apply_dims(old(ctx)@.meta, w, h),
            Option::None => old(ctx)@.meta,
        },
        final(ctx)@.time == spec_time_after_fallbacks(
            old(ctx)@.time,
            old(ctx)@.media_type,
            old(ctx)@.source.original,
            match facts.created_ms {
                Option::Some(t) => Option::Some(t as int),
                Option::None => Option::None,
            },
        ),
        final(ctx)@.source == old(ctx)@.source,
        final(ctx)@.space == old(ctx)@.space,
        final(ctx)@.special == old(ctx)@.special,
        final(ctx)@.media_type == old(ctx)@.media_type,
{
    match facts.dimensions {
        Option::Some((w, h)) => {
            apply_dimension_fallback(ctx, w, h);
        },
        Option::None => {},
    }
    apply_time_fallbacks(ctx, facts.created_ms);
}

} // verus!

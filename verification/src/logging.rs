//! The rotating log's naming and rotation rule, log levels, and the
//! RFC 3339 UTC timestamps every log line starts with.
use vstd::prelude::*;

use crate::text::{decimal_padded, push_decimal_padded, push_str, string_from_chars};

verus! {

/// The current log file; rotations move it to `tamp.1.log` … `tamp.N.log`.
pub const LOG_FILE: &'static str = "tamp.log";

/// Rotate when a write would push the current file past this size (~2 MB).
pub const MAX_FILE_BYTES: u64 = 2097152;

/// Rotated files kept (`tamp.1.log` … `tamp.4.log`); the oldest is dropped.
pub const MAX_ROTATED: usize = 4;

#[derive(Clone, Copy, Debug, PartialEq, Eq, Structural)]
pub enum Level {
    Debug,
    Info,
    Warn,
    Error,
}

pub open spec fn level_name(l: Level) -> Seq<char> {
    match l {
        Level::Debug => "DEBUG"@,
        Level::Info => "INFO"@,
        Level::Warn => "WARN"@,
        Level::Error => "ERROR"@,
    }
}

impl Level {
    pub fn as_str(self) -> (r: &'static str)
        ensures
            r@ == level_name(self),
    {
        match self {
            Level::Debug => "DEBUG",
            Level::Info => "INFO",
            Level::Warn => "WARN",
            Level::Error => "ERROR",
        }
    }
}

/// Whether appending a `line_len`-byte line (plus its newline) to a file that
/// already holds `written` bytes must rotate first: only when the file is not
/// empty and the write would push it past `max_file_bytes`. A line bigger than
/// the whole limit therefore still lands in a fresh file.
pub fn needs_rotation(written: u64, line_len: u64, max_file_bytes: u64) -> (r: bool)
    ensures
        r == (written > 0 && written + line_len + 1 > max_file_bytes),
{
    if written == 0 {
        return false;
    }
    if line_len >= u64::MAX - written {
        return true;
    }
    written + line_len + 1 > max_file_bytes
}

/// `tamp.{n}.log`
pub fn rotated_file_name(n: usize) -> (r: String)
    ensures
        r@ == "tamp."@ + crate::text::decimal(n as nat) + ".log"@,
{
    let mut v: Vec<char> = Vec::new();
    push_str(&mut v, "tamp.");
    crate::text::push_decimal(&mut v, n as u64);
    push_str(&mut v, ".log");
    string_from_chars(&v)
}

/// One step of a rotation: move rotated file `from` to `to` (`0` names the
/// current file `tamp.log`).
#[derive(Clone, Copy, Debug, PartialEq, Eq, Structural)]
pub struct RenameStep {
    pub from: usize,
    pub to: usize,
}

/// Step `k` of a rotation with `max_rotated` kept files: `tamp.{i}.log`
/// moves to `tamp.{i+1}.log` for `i` from `max_rotated - 1` down to 1, then
/// the current file (0) becomes `tamp.1.log`.
pub open spec fn rotation_step(max_rotated: int, k: int) -> RenameStep {
    if k < max_rotated - 1 {
        RenameStep { from: (max_rotated - 1 - k) as usize, to: (max_rotated - k) as usize }
    } else {
        RenameStep { from: 0, to: 1 }
    }
}

/// The renames of one rotation, in order, run after the oldest rotated file
/// (`tamp.{max_rotated}.log`) has been removed.
pub fn rotation_plan(max_rotated: usize) -> (r: Vec<RenameStep>)
    requires
        max_rotated >= 1,
    ensures
        r.len() == max_rotated,
        forall|k: int| 0 <= k < r.len() ==> #[trigger] r@[k] == rotation_step(max_rotated as int, k),
{
    let mut r: Vec<RenameStep> = Vec::new();
    let mut i = max_rotated - 1;
    while i >= 1
        invariant
            i < max_rotated,
            r.len() == max_rotated - 1 - i,
            forall|k: int|
                0 <= k < r.len() ==> #[trigger] r@[k] == (RenameStep {
                    from: (max_rotated - 1 - k) as usize,
                    to: (max_rotated - k) as usize,
                }),
        decreases i,
    {
        r.push(RenameStep { from: i, to: i + 1 });
        i = i - 1;
    }
    r.push(RenameStep { from: 0, to: 1 });
    assert forall|k: int| 0 <= k < r.len() implies #[trigger] r@[k] == rotation_step(
        max_rotated as int,
        k,
    ) by {}
    r
}

/// A rotation never overwrites a file: each step moves onto the name the
/// oldest file vacated or onto a name an earlier step moved away from, and
/// no file is moved twice.
pub proof fn lemma_rotation_never_overwrites(max_rotated: int, k: int)
    requires
        1 <= max_rotated <= usize::MAX,
        0 <= k < max_rotated,
    ensures
        rotation_step(max_rotated, k).to == max_rotated || (k > 0 && rotation_step(
            max_rotated,
            k - 1,
        ).from == rotation_step(max_rotated, k).to),
        forall|j: int|
            0 <= j < k ==> #[trigger] rotation_step(max_rotated, j).from != rotation_step(
                max_rotated,
                k,
            ).from,
{
}

// ---------------------------------------------------------------------------
// Calendar

/// Days since 1970-01-01 of the proleptic Gregorian date `y-m-d`: the days of
/// the whole 400-year eras before it, plus the days of its era's years
/// (counted from March, so the leap day falls at a year's end), plus its day
/// of that year.
pub open spec fn days_from_civil(y: int, m: int, d: int) -> int {
    let yy = if m <= 2 {
        y - 1
    } else {
        y
    };
    let era = yy / 400;
    let yoe = yy - era * 400;
    let mp = if m > 2 {
        m - 3
    } else {
        m + 9
    };
    let doy = (153 * mp + 2) / 5 + d - 1;
    let doe = yoe * 365 + yoe / 4 - yoe / 100 + doy;
    era * 146097 + doe - 719468
}

pub open spec fn is_leap(y: int) -> bool {
    (y % 4 == 0 && y % 100 != 0) || y % 400 == 0
}

pub open spec fn days_in_month(y: int, m: int) -> int {
    if m == 2 {
        if is_leap(y) {
            29
        } else {
            28
        }
    } else if m == 4 || m == 6 || m == 9 || m == 11 {
        30
    } else {
        31
    }
}

pub open spec fn valid_date(y: int, m: int, d: int) -> bool {
    1 <= m <= 12 && 1 <= d <= days_in_month(y, m)
}

/// The year-of-era arithmetic: for a day of a 400-year era (counted from
/// March 1 of its first year), the year it falls in and its day within that
/// year.
proof fn lemma_year_of_era(doe: u64, yoe: u64)
    by (bit_vector)
    requires
        doe <= 146096,
        yoe == ((doe - doe / 1460 + doe / 36524 - doe / 146096) / 365) as u64,
    ensures
        yoe <= 399,
        365 * yoe + yoe / 4 - yoe / 100 <= doe,
        doe - (365 * yoe + yoe / 4 - yoe / 100) <= 365,
        doe - (365 * yoe + yoe / 4 - yoe / 100) == 365 ==> yoe % 4 == 3 && (yoe % 100 != 99
            || yoe == 399),
{
}

/// The month arithmetic: a day of a March-based year maps to a month index
/// (0 = March … 11 = February) and a day of that month within its length.
proof fn lemma_month_of_year(doy: u64, mp: u64, start: u64)
    by (bit_vector)
    requires
        doy <= 365,
        mp == ((5 * doy + 2) / 153) as u64,
        start == ((153 * mp + 2) / 5) as u64,
    ensures
        mp <= 11,
        start <= doy,
        doy - start <= 30,
        (mp == 1 || mp == 3 || mp == 6 || mp == 8) ==> doy - start <= 29,
        mp == 11 ==> doy - start <= 28,
        (mp == 11 && doy - start == 28) ==> doy == 365,
{
}

/// Days since the epoch to (year, month, day) in the proleptic Gregorian
/// calendar.
pub fn civil_from_days(z: i64) -> (r: (i64, u32, u32))
    requires
        z <= i64::MAX - 719_468,
    ensures
        valid_date(r.0 as int, r.1 as int, r.2 as int),
        days_from_civil(r.0 as int, r.1 as int, r.2 as int) == z,
{
    let z = z + 719_468;
    // era = floor(z / 146097), computed on magnitudes
    let era: i64 = if z >= 0 {
        (z as u64 / 146_097) as i64
    } else {
        -((((-z) as u64 + 146_096) / 146_097) as i64)
    };
    proof {
        lemma_floor_div(z as int, era as int);
    }
    let doe = (z - era * 146_097) as u64;
    let yoe = (doe - doe / 1_460 + doe / 36_524 - doe / 146_096) / 365;
    proof {
        lemma_year_of_era(doe, yoe);
    }
    let y = yoe as i64 + era * 400;
    let doy = doe - (365 * yoe + yoe / 4 - yoe / 100);
    let mp = (5 * doy + 2) / 153;
    let start = (153 * mp + 2) / 5;
    proof {
        lemma_month_of_year(doy, mp, start);
    }
    let d = (doy - start + 1) as u32;
    let m = if mp < 10 {
        mp + 3
    } else {
        mp - 9
    } as u32;
    let year = if m <= 2 {
        y + 1
    } else {
        y
    };
    proof {
        lemma_civil_round_trip(z as int, era as int, doe as int, yoe as int, doy as int, mp as int, d as int, m as int, year as int);
    }
    (year, m, d)
}

/// `era` is the floor of `z / 146097`.
proof fn lemma_floor_div(z: int, era: int)
    requires
        z >= 0 ==> era == z / 146097,
        z < 0 ==> era == -((-z + 146096) / 146097),
    ensures
        0 <= z - era * 146097 <= 146096,
{
    if z < 0 {
        let q = (-z + 146096) / 146097;
        assert(0 <= (-z + 146096) - q * 146097 < 146097);
    }
}

proof fn lemma_civil_round_trip(
    z: int,
    era: int,
    doe: int,
    yoe: int,
    doy: int,
    mp: int,
    d: int,
    m: int,
    year: int,
)
    requires
        0 <= doe <= 146096,
        doe == z - era * 146097,
        0 <= yoe <= 399,
        doy == doe - (365 * yoe + yoe / 4 - yoe / 100),
        0 <= doy <= 365,
        doy == 365 ==> yoe % 4 == 3 && (yoe % 100 != 99 || yoe == 399),
        0 <= mp <= 11,
        (153 * mp + 2) / 5 <= doy,
        d == doy - (153 * mp + 2) / 5 + 1,
        d <= 31,
        (mp == 1 || mp == 3 || mp == 6 || mp == 8) ==> d <= 30,
        mp == 11 ==> d <= 29,
        (mp == 11 && d == 29) ==> doy == 365,
        m == if mp < 10 {
            mp + 3
        } else {
            mp - 9
        },
        year == if m <= 2 {
            yoe + era * 400 + 1
        } else {
            yoe + era * 400
        },
    ensures
        valid_date(year, m, d),
        days_from_civil(year, m, d) == z - 719468,
{
    let yy = if m <= 2 {
        year - 1
    } else {
        year
    };
    assert(yy == yoe + era * 400);
    assert(yy / 400 == era) by {
        vstd::arithmetic::div_mod::lemma_fundamental_div_mod_converse(yy, 400, era, yoe);
    }
    if mp == 11 && d == 29 {
        // the leap day closes a year of the era that is a leap year
        assert(year == yoe + 1 + era * 400);
        assert(year % 4 == (yoe + 1) % 4) by {
            vstd::arithmetic::div_mod::lemma_mod_multiples_vanish(era * 100, yoe + 1, 4);
            assert(era * 400 == 4 * (era * 100));
        }
        assert(year % 100 == (yoe + 1) % 100) by {
            vstd::arithmetic::div_mod::lemma_mod_multiples_vanish(era * 4, yoe + 1, 100);
            assert(era * 400 == 100 * (era * 4));
        }
        if yoe == 399 {
            assert(year % 400 == 0) by {
                vstd::arithmetic::div_mod::lemma_mod_multiples_vanish(era + 1, 0, 400);
                assert(year == 400 * (era + 1));
            }
        }
        assert(is_leap(year));
    }
}

// ---------------------------------------------------------------------------
// Timestamps

pub open spec fn year_text(y: int) -> Seq<char> {
    if y >= 0 {
        decimal_padded(y as nat, 4)
    } else {
        seq!['-'] + decimal_padded((-y) as nat, 3)
    }
}

/// `YYYY-MM-DDTHH:MM:SS.mmmZ`
pub open spec fn timestamp_text(
    y: int,
    mo: int,
    d: int,
    h: int,
    mi: int,
    s: int,
    ms: int,
) -> Seq<char> {
    year_text(y) + seq!['-'] + decimal_padded(mo as nat, 2) + seq!['-'] + decimal_padded(
        d as nat,
        2,
    ) + seq!['T'] + decimal_padded(h as nat, 2) + seq![':'] + decimal_padded(mi as nat, 2) + seq![
        ':',
    ] + decimal_padded(s as nat, 2) + seq!['.'] + decimal_padded(ms as nat, 3) + seq!['Z']
}

/// `text` is the timestamp of the instant `secs` seconds and `millis`
/// milliseconds after the epoch.
pub open spec fn is_timestamp_of(text: Seq<char>, secs: int, millis: int) -> bool {
    exists|y: int, mo: int, d: int|
        #![trigger days_from_civil(y, mo, d)]
        valid_date(y, mo, d) && days_from_civil(y, mo, d) == secs / 86400 && text
            == timestamp_text(y, mo, d, (secs % 86400) / 3600, (secs % 3600) / 60, secs % 60, millis)
}

/// The UTC timestamp of the instant `secs` seconds and `millis` milliseconds
/// after the Unix epoch, as `YYYY-MM-DDTHH:MM:SS.mmmZ` (proleptic Gregorian).
pub fn format_timestamp_parts(secs: u64, millis: u32) -> (r: String)
    requires
        millis < 1000,
    ensures
        is_timestamp_of(r@, secs as int, millis as int),
{
    let days = secs / 86_400;
    let rem = secs % 86_400;
    let h = rem / 3_600;
    let m = (rem % 3_600) / 60;
    let sec = rem % 60;
    let (year, month, day) = civil_from_days(days as i64);
    let mut v: Vec<char> = Vec::new();
    if year >= 0 {
        push_decimal_padded(&mut v, year as u64, 4);
    } else {
        v.push('-');
        push_decimal_padded(&mut v, (-year) as u64, 3);
    }
    v.push('-');
    push_decimal_padded(&mut v, month as u64, 2);
    v.push('-');
    push_decimal_padded(&mut v, day as u64, 2);
    v.push('T');
    push_decimal_padded(&mut v, h, 2);
    v.push(':');
    push_decimal_padded(&mut v, m, 2);
    v.push(':');
    push_decimal_padded(&mut v, sec, 2);
    v.push('.');
    push_decimal_padded(&mut v, millis as u64, 3);
    v.push('Z');
    proof {
        assert(rem % 3600 == secs % 3600) by {
            vstd::arithmetic::div_mod::lemma_mod_mod(secs as int, 3600, 24);
        }
        assert(rem % 60 == secs % 60) by {
            vstd::arithmetic::div_mod::lemma_mod_mod(secs as int, 60, 1440);
        }
        assert(v@ =~= timestamp_text(
            year as int,
            month as int,
            day as int,
            ((secs % 86400) / 3600) as int,
            ((secs % 3600) / 60) as int,
            (secs % 60) as int,
            millis as int,
        ));
        assert(days_from_civil(year as int, month as int, day as int) == secs / 86400);
        assert(is_timestamp_of(v@, secs as int, millis as int));
    }
    string_from_chars(&v)
}

/// std's `SystemTime`, carried through opaquely.
#[verifier::external_type_specification]
#[verifier::external_body]
pub struct ExSystemTime(std::time::SystemTime);

/// The name for what `SystemTime::duration_since(UNIX_EPOCH)` gives for
/// `now`, taken apart into whole seconds (`Duration::as_secs`) and the
/// milliseconds of the fractional second (`Duration::subsec_millis`);
/// `None` for an instant before the epoch.
pub uninterp spec fn epoch_parts_of(now: std::time::SystemTime) -> Option<(u64, u32)>;

/// `now.duration_since(UNIX_EPOCH)`, converted to its whole seconds and
/// the milliseconds of its fractional second.
///
/// Trusted: the result is `epoch_parts_of(now)`, and the milliseconds are
/// below 1000, as `Duration::subsec_millis` documents.
#[verifier::external_body]
fn epoch_parts(now: std::time::SystemTime) -> (r: Option<(u64, u32)>)
    ensures
        r == epoch_parts_of(now),
        r matches Some((_, m)) ==> m < 1000,
{
    now.duration_since(std::time::UNIX_EPOCH).ok().map(|d| (d.as_secs(), d.subsec_millis()))
}

/// RFC 3339 UTC timestamp (`2026-06-11T19:03:12.345Z`) of `now`; an instant
/// before the epoch renders as the epoch itself.
pub fn format_timestamp(now: std::time::SystemTime) -> (r: String)
    ensures
        match epoch_parts_of(now) {
            Some((secs, millis)) => is_timestamp_of(r@, secs as int, millis as int),
            None => is_timestamp_of(r@, 0, 0),
        },
{
    match epoch_parts(now) {
        Some((secs, millis)) => format_timestamp_parts(secs, millis),
        None => format_timestamp_parts(0, 0),
    }
}

} // verus!

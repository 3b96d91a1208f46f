//! Microsecond-resolution epochs relative to MJD2000.
use vstd::prelude::*;

use crate::error::{is_invalid_input, PykepError, Result};
use crate::text::{
    all_digits, append_decimal, append_zero_padded, decimal, digits_value, is_digit,
    lemma_decimal_width_below, lemma_zero_padded, power_of_ten, zero_padded,
};
use vstd::string::StringSliceAdditionalSpecFns;
use vstd::utf8::is_ascii_chars;
use crate::time::calendar::{
    civil_day, civil_from_days, date_of_day, days_from_civil, days_in_month, is_valid_date,
    lemma_date_of_day_valid, month_length,
};

verus! {

const MICROSECONDS_PER_SECOND: i64 = 1_000_000;
const SECONDS_PER_DAY: i64 = 86_400;
const MICROSECONDS_PER_DAY: i64 = 86_400_000_000;
const UNIX_DAYS_AT_MJD2000: i64 = 10_957;
const UNIX_SECONDS_AT_MJD2000: i64 = 946_684_800;

/// Microseconds from the Unix epoch to MJD2000 zero.
pub open spec fn unix_microseconds_at_mjd2000() -> int {
    946_684_800_000_000
}

/// Declares `std::time::SystemTime` to the verifier; its values are opaque.
#[verifier::external_type_specification]
#[verifier::external_body]
pub struct ExSystemTime(std::time::SystemTime);

/// Declares `std::time::SystemTimeError` to the verifier; its values are opaque.
#[verifier::external_type_specification]
#[verifier::external_body]
pub struct ExSystemTimeError(std::time::SystemTimeError);

/// Reads the system clock with `std::time::SystemTime::now`; nothing is known
/// of the reading.
#[verifier::external_body]
fn system_time_now() -> std::time::SystemTime {
    std::time::SystemTime::now()
}

/// `SystemTime::duration_since(UNIX_EPOCH)`: the time elapsed since the Unix
/// epoch, or an error holding the distance when `time` lies before it. No
/// contract is stated: both values are opaque here.
#[verifier::external_body]
fn duration_since_unix_epoch(time: &std::time::SystemTime) -> core::result::Result<
    std::time::Duration,
    std::time::SystemTimeError,
> {
    time.duration_since(std::time::UNIX_EPOCH)
}

/// `SystemTimeError::duration`: how far the time lay before the Unix epoch. No
/// contract is stated: the duration is opaque here.
#[verifier::external_body]
fn clock_error_duration(error: &std::time::SystemTimeError) -> std::time::Duration {
    error.duration()
}

/// `Duration::as_micros`: the whole microseconds of a duration. No contract is
/// stated: a `Duration` is opaque here, so the count is taken as it comes.
#[verifier::external_body]
fn duration_microseconds(duration: &std::time::Duration) -> u128 {
    duration.as_micros()
}

/// A proleptic-Gregorian epoch with one-microsecond resolution.
///
/// The internal value is a signed count of microseconds from
/// 2000-01-01T00:00:00, which is MJD2000 zero.
#[derive(Clone, Copy, Debug, PartialEq, Eq, Hash, Ord)]
pub struct Epoch {
    microseconds_mjd2000: i64,
}

impl View for Epoch {
    type V = int;

    /// Microseconds from 2000-01-01T00:00:00.
    closed spec fn view(&self) -> int {
        self.microseconds_mjd2000 as int
    }
}

/// Microseconds in one day.
pub open spec fn day_microseconds() -> int {
    86_400_000_000
}

/// Microseconds from MJD2000 zero to a calendar date and time of day.
pub open spec fn calendar_microseconds(
    year: int,
    month: int,
    day: int,
    hour: int,
    minute: int,
    second: int,
    millisecond: int,
    microsecond: int,
) -> int {
    civil_day(year, month, day) * day_microseconds() + (hour * 3600 + minute * 60 + second)
        * 1_000_000 + millisecond * 1000 + microsecond
}

/// The first calendar component that `Epoch::from_calendar` rejects, with the
/// parameter name and the reason it reports.
pub open spec fn calendar_violation(
    year: int,
    month: int,
    day: int,
    hour: int,
    minute: int,
    second: int,
    millisecond: int,
    microsecond: int,
) -> Option<(Seq<char>, Seq<char>)> {
    if !(-32767 <= year <= 32767) {
        Some(("year"@, "must be in -32767..=32767"@))
    } else if !(1 <= month <= 12) {
        Some(("month"@, "must be in 1..=12"@))
    } else if day == 0 || day > month_length(year, month) {
        Some(
            (
                "day"@,
                "must be in 1..="@ + decimal(month_length(year, month) as nat)
                    + " for the selected month"@,
            ),
        )
    } else if hour > 23 {
        Some(("hour"@, "must be in 0..=23"@))
    } else if minute > 59 {
        Some(("minute"@, "must be in 0..=59"@))
    } else if second > 59 {
        Some(("second"@, "must be in 0..=59"@))
    } else if millisecond > 999 {
        Some(("millisecond"@, "must be in 0..=999"@))
    } else if microsecond > 999 {
        Some(("microsecond"@, "must be in 0..=999"@))
    } else {
        None
    }
}

/// `result` is what `Epoch::from_calendar` returns for these components.
pub open spec fn is_calendar_outcome(
    result: Result<Epoch>,
    year: int,
    month: int,
    day: int,
    hour: int,
    minute: int,
    second: int,
    millisecond: int,
    microsecond: int,
) -> bool {
    match calendar_violation(year, month, day, hour, minute, second, millisecond, microsecond) {
        Some(violation) => result is Err && is_invalid_input(
            result->Err_0,
            violation.0,
            violation.1,
        ),
        None => result is Ok && result->Ok_0@ == calendar_microseconds(
            year,
            month,
            day,
            hour,
            minute,
            second,
            millisecond,
            microsecond,
        ),
    }
}

/// The year of an ISO timestamp: at least four digits, with a leading minus sign
/// for years before year zero.
pub open spec fn year_text(year: int) -> Seq<char> {
    if year >= 0 {
        zero_padded(year as nat, 4)
    } else {
        "-"@ + zero_padded((-year) as nat, 4)
    }
}

/// The calendar date of the day that contains the instant `microseconds`.
pub open spec fn epoch_date(microseconds: int) -> (int, int, int) {
    date_of_day(microseconds / day_microseconds())
}

/// The ISO timestamp `YYYY-MM-DDTHH:MM:SS.ffffff` of the instant `microseconds`.
pub open spec fn iso_text(microseconds: int) -> Seq<char> {
    let date = epoch_date(microseconds);
    let within_day = microseconds % day_microseconds();
    let seconds = within_day / 1_000_000;
    let fractional = within_day % 1_000_000;
    year_text(date.0) + "-"@ + zero_padded(date.1 as nat, 2) + "-"@ + zero_padded(date.2 as nat, 2)
        + "T"@ + zero_padded((seconds / 3600) as nat, 2) + ":"@ + zero_padded(
        ((seconds % 3600) / 60) as nat,
        2,
    ) + ":"@ + zero_padded((seconds % 60) as nat, 2) + "."@ + zero_padded(fractional as nat, 6)
}

/// The first index `>= i` at which `t` holds a `-`.
pub open spec fn first_dash_from(t: Seq<char>, i: int) -> Option<int>
    decreases t.len() - i,
{
    if i < 0 || i >= t.len() {
        None
    } else if t[i] == '-' {
        Some(i)
    } else {
        first_dash_from(t, i + 1)
    }
}

/// Lengths of the text that may follow an ISO year: `-MM`, `-MM-DD`, and so on
/// up to `-MM-DDTHH:MM:SS.ffffff`.
pub open spec fn is_iso_suffix_length(n: int) -> bool {
    n == 3 || n == 6 || n == 9 || n == 12 || n == 15 || 17 <= n <= 22
}

/// The two-digit field of `suffix` starting at `start`, or `default` when the
/// suffix is shorter than `needed`.
pub open spec fn iso_field(suffix: Seq<char>, needed: int, start: int, default: int) -> int {
    if suffix.len() >= needed {
        digits_value(suffix.subrange(start, start + 2))
    } else {
        default
    }
}

/// Separators and digits of the text after an ISO year.
pub open spec fn is_iso_suffix(suffix: Seq<char>) -> bool {
    &&& is_iso_suffix_length(suffix.len() as int)
    &&& suffix[0] == '-'
    &&& all_digits(suffix.subrange(1, 3))
    &&& suffix.len() >= 6 ==> suffix[3] == '-' && all_digits(suffix.subrange(4, 6))
    &&& suffix.len() >= 9 ==> suffix[6] == 'T' && all_digits(suffix.subrange(7, 9))
    &&& suffix.len() >= 12 ==> suffix[9] == ':' && all_digits(suffix.subrange(10, 12))
    &&& suffix.len() >= 15 ==> suffix[12] == ':' && all_digits(suffix.subrange(13, 15))
    &&& suffix.len() >= 17 ==> suffix[15] == '.' && all_digits(
        suffix.subrange(16, suffix.len() as int),
    )
}

/// Fields `(month, day, hour, minute, second, fraction)` of the text after an
/// ISO year; absent fields take their defaults and the fraction is in microseconds.
pub open spec fn iso_suffix_fields(suffix: Seq<char>) -> (int, int, int, int, int, int) {
    let fraction = if suffix.len() >= 17 {
        let f = suffix.subrange(16, suffix.len() as int);
        digits_value(f) * power_of_ten((6 - f.len()) as nat)
    } else {
        0
    };
    (
        iso_field(suffix, 3, 1, 0),
        iso_field(suffix, 6, 4, 1),
        iso_field(suffix, 9, 7, 0),
        iso_field(suffix, 12, 10, 0),
        iso_field(suffix, 15, 13, 0),
        fraction,
    )
}

/// Calendar fields `(year, month, day, hour, minute, second, fraction)` of a
/// cropped ISO timestamp `[-]YYYY[Y]-MM[-DD[THH[:MM[:SS[.f{1,6}]]]]]`, where the
/// fraction is in microseconds; `None` when the text has another shape.
pub open spec fn iso_fields(t: Seq<char>) -> Option<(int, int, int, int, int, int, int)> {
    if !is_ascii_chars(t) {
        None
    } else {
        let start: int = if t.len() > 0 && t[0] == '-' { 1 } else { 0 };
        match first_dash_from(t, start) {
            None => None,
            Some(year_end) => {
                let digits = t.subrange(start, year_end);
                let suffix = t.subrange(year_end, t.len() as int);
                if !(4 <= digits.len() <= 5 && all_digits(digits) && is_iso_suffix(suffix)) {
                    None
                } else {
                    let year = if start == 1 { -digits_value(digits) } else { digits_value(digits) };
                    let f = iso_suffix_fields(suffix);
                    Some((year, f.0, f.1, f.2, f.3, f.4, f.5))
                }
            },
        }
    }
}

/// Whether `error` is the error reported for malformed ISO text.
pub open spec fn is_invalid_iso(error: PykepError) -> bool {
    is_invalid_input(
        error,
        "iso"@,
        "expected YYYY-MM[-DD[THH[:MM[:SS[.ffffff]]]]] with an optional negative and four- or five-digit year"@,
    )
}

/// `text` is accepted by `Epoch::from_iso` as the epoch at `microseconds`.
pub open spec fn iso_denotes(text: Seq<char>, microseconds: int) -> bool {
    match iso_fields(text) {
        Some(f) => calendar_violation(f.0, f.1, f.2, f.3, f.4, f.5, f.6 / 1000, f.6 % 1000) is None
            && calendar_microseconds(f.0, f.1, f.2, f.3, f.4, f.5, f.6 / 1000, f.6 % 1000)
            == microseconds,
        None => false,
    }
}

/// A zero-padded number below `10^k` with `k <= width` has exactly `width` characters.
proof fn lemma_padded_width(n: nat, width: nat, k: nat)
    requires
        1 <= k <= width,
        n < power_of_ten(k),
    ensures
        zero_padded(n, width).len() == width,
        all_digits(zero_padded(n, width)),
        digits_value(zero_padded(n, width)) == n,
{
    lemma_decimal_width_below(n, k);
    lemma_zero_padded(n, width);
}

/// The first `-` from `start` is at `end` when the characters in between are not `-`.
proof fn lemma_first_dash_at(t: Seq<char>, start: int, end: int)
    requires
        0 <= start <= end < t.len(),
        forall|i: int| start <= i < end ==> t[i] != '-',
        t[end] == '-',
    ensures
        first_dash_from(t, start) == Some(end),
    decreases end - start,
{
    if start < end {
        lemma_first_dash_at(t, start + 1, end);
    }
}

/// The text after the year of an ISO timestamp, as `Epoch::to_iso` writes it.
pub open spec fn iso_suffix_text(
    month: nat,
    day: nat,
    hour: nat,
    minute: nat,
    second: nat,
    fraction: nat,
) -> Seq<char> {
    "-"@ + zero_padded(month, 2) + "-"@ + zero_padded(day, 2) + "T"@ + zero_padded(hour, 2) + ":"@
        + zero_padded(minute, 2) + ":"@ + zero_padded(second, 2) + "."@ + zero_padded(fraction, 6)
}

/// The suffix written for in-range fields reads back as those fields.
#[verifier::rlimit(60)]
proof fn lemma_iso_suffix_round_trip(
    month: nat,
    day: nat,
    hour: nat,
    minute: nat,
    second: nat,
    fraction: nat,
)
    requires
        month < 100,
        day < 100,
        hour < 100,
        minute < 100,
        second < 100,
        fraction < 1_000_000,
    ensures
        ({
            let suffix = iso_suffix_text(month, day, hour, minute, second, fraction);
            &&& suffix.len() == 22
            &&& is_ascii_chars(suffix)
            &&& suffix[0] == '-'
            &&& is_iso_suffix(suffix)
            &&& iso_suffix_fields(suffix) == (
                month as int,
                day as int,
                hour as int,
                minute as int,
                second as int,
                fraction as int,
            )
        }),
{
    reveal_strlit("-");
    reveal_strlit("T");
    reveal_strlit(":");
    reveal_strlit(".");
    reveal_with_fuel(power_of_ten, 7);
    lemma_padded_width(month, 2, 2);
    lemma_padded_width(day, 2, 2);
    lemma_padded_width(hour, 2, 2);
    lemma_padded_width(minute, 2, 2);
    lemma_padded_width(second, 2, 2);
    lemma_padded_width(fraction, 6, 6);
    let mm = zero_padded(month, 2);
    let dd = zero_padded(day, 2);
    let hh = zero_padded(hour, 2);
    let mi = zero_padded(minute, 2);
    let ss = zero_padded(second, 2);
    let ff = zero_padded(fraction, 6);
    let suffix = iso_suffix_text(month, day, hour, minute, second, fraction);
    assert(suffix =~= seq!['-'] + mm + seq!['-'] + dd + seq!['T'] + hh + seq![':'] + mi + seq![':']
        + ss + seq!['.'] + ff);
    assert(suffix.subrange(1, 3) =~= mm);
    assert(suffix.subrange(4, 6) =~= dd);
    assert(suffix.subrange(7, 9) =~= hh);
    assert(suffix.subrange(10, 12) =~= mi);
    assert(suffix.subrange(13, 15) =~= ss);
    assert(suffix.subrange(16, 22) =~= ff);
    assert forall|i: int| 0 <= i < suffix.len() implies '\0' <= #[trigger] suffix[i] <= '\u{7f}' by {
        if 1 <= i < 3 {
            assert(suffix[i] == mm[i - 1] && is_digit(mm[i - 1]));
        } else if 4 <= i < 6 {
            assert(suffix[i] == dd[i - 4] && is_digit(dd[i - 4]));
        } else if 7 <= i < 9 {
            assert(suffix[i] == hh[i - 7] && is_digit(hh[i - 7]));
        } else if 10 <= i < 12 {
            assert(suffix[i] == mi[i - 10] && is_digit(mi[i - 10]));
        } else if 13 <= i < 15 {
            assert(suffix[i] == ss[i - 13] && is_digit(ss[i - 13]));
        } else if 16 <= i < 22 {
            assert(suffix[i] == ff[i - 16] && is_digit(ff[i - 16]));
        }
    }
    assert(is_iso_suffix(suffix));
    let f = suffix.subrange(16, suffix.len() as int);
    assert(f == ff);
    assert(f.len() == 6);
    assert(((6 - f.len()) as nat) == 0nat);
    assert(power_of_ten(0) == 1);
    assert(digits_value(f) == fraction);
    assert(digits_value(f) * power_of_ten((6 - f.len()) as nat) == fraction);
    assert(iso_suffix_fields(suffix).5 == fraction);
    assert(iso_suffix_fields(suffix).0 == month);
    assert(iso_suffix_fields(suffix).1 == day);
    assert(iso_suffix_fields(suffix).2 == hour);
    assert(iso_suffix_fields(suffix).3 == minute);
    assert(iso_suffix_fields(suffix).4 == second);
}

/// ISO text made of a year in the supported range and a well-formed suffix
/// reads back as that year and the suffix's fields.
#[verifier::rlimit(60)]
proof fn lemma_iso_fields_of_year_and_suffix(year: int, suffix: Seq<char>)
    requires
        -32767 <= year <= 32767,
        is_ascii_chars(suffix),
        suffix.len() > 0,
        suffix[0] == '-',
        is_iso_suffix(suffix),
    ensures
        ({
            let f = iso_suffix_fields(suffix);
            iso_fields(year_text(year) + suffix) == Some((year, f.0, f.1, f.2, f.3, f.4, f.5))
        }),
{
    reveal_strlit("-");
    reveal_with_fuel(power_of_ten, 6);
    let magnitude: nat = if year < 0 { (-year) as nat } else { year as nat };
    let year_digits = zero_padded(magnitude, 4);
    lemma_decimal_width_below(magnitude, 5);
    lemma_zero_padded(magnitude, 4);
    let start: int = if year < 0 { 1 } else { 0 };
    let t = year_text(year) + suffix;
    let year_end = start + year_digits.len();
    assert(t.subrange(start, year_end) =~= year_digits);
    assert(t.subrange(year_end, t.len() as int) =~= suffix);
    assert forall|i: int| start <= i < year_end implies t[i] != '-' by {
        assert(t[i] == year_digits[i - start]);
        assert(is_digit(year_digits[i - start]));
    }
    assert(t[year_end] == suffix[0]);
    if year >= 0 {
        assert(t[0] == year_digits[0]);
        assert(is_digit(year_digits[0]));
    }
    lemma_first_dash_at(t, start, year_end);
    assert forall|i: int| 0 <= i < t.len() implies '\0' <= #[trigger] t[i] <= '\u{7f}' by {
        if i >= year_end {
            assert(t[i] == suffix[i - year_end]);
        } else if i >= start {
            assert(t[i] == year_digits[i - start]);
            assert(is_digit(year_digits[i - start]));
        }
    }
}

/// Cropped ISO text reads back field by field: the text that `Epoch::to_iso`
/// writes for a year and clock fields (with a zero fraction), cut after the
/// month, day, hour, minute or second, is read as that year and every field it
/// still holds, with the day defaulting to 1 and the rest to 0. In particular
/// `YYYY-MM-DDTHH:MM:SS` keeps its seconds, as the same text with `.000000`
/// appended does.
pub proof fn law_iso_crops_keep_their_fields(
    year: int,
    month: nat,
    day: nat,
    hour: nat,
    minute: nat,
    second: nat,
    length: int,
)
    requires
        -32767 <= year <= 32767,
        month < 100,
        day < 100,
        hour < 100,
        minute < 100,
        second < 100,
        length == 3 || length == 6 || length == 9 || length == 12 || length == 15,
    ensures
        iso_fields(
            year_text(year) + iso_suffix_text(month, day, hour, minute, second, 0).subrange(0, length),
        ) == Some(
            (
                year,
                month as int,
                if length >= 6 { day as int } else { 1 },
                if length >= 9 { hour as int } else { 0 },
                if length >= 12 { minute as int } else { 0 },
                if length >= 15 { second as int } else { 0 },
                0int,
            ),
        ),
        iso_fields(year_text(year) + iso_suffix_text(month, day, hour, minute, second, 0))
            == Some((year, month as int, day as int, hour as int, minute as int, second as int, 0int)),
{
    lemma_iso_suffix_round_trip(month, day, hour, minute, second, 0);
    let full = iso_suffix_text(month, day, hour, minute, second, 0);
    let cropped = full.subrange(0, length);
    assert forall|i: int| 0 <= i < cropped.len() implies '\0' <= #[trigger] cropped[i] <= '\u{7f}' by {
        assert(cropped[i] == full[i]);
    }
    assert(cropped.subrange(1, 3) =~= full.subrange(1, 3));
    if length >= 6 {
        assert(cropped.subrange(4, 6) =~= full.subrange(4, 6));
        assert(cropped[3] == full[3]);
    }
    if length >= 9 {
        assert(cropped.subrange(7, 9) =~= full.subrange(7, 9));
        assert(cropped[6] == full[6]);
    }
    if length >= 12 {
        assert(cropped.subrange(10, 12) =~= full.subrange(10, 12));
        assert(cropped[9] == full[9]);
    }
    if length >= 15 {
        assert(cropped.subrange(13, 15) =~= full.subrange(13, 15));
        assert(cropped[12] == full[12]);
    }
    assert(cropped[0] == full[0]);
    assert(is_iso_suffix(cropped));
    lemma_iso_fields_of_year_and_suffix(year, cropped);
    lemma_iso_fields_of_year_and_suffix(year, full);
}

/// ISO text cut inside its fraction reads back as the fraction truncated to
/// the digits kept: the text that `Epoch::to_iso` writes for a year and clock
/// fields, cut after `length - 16` fraction digits, is read as that year, the
/// same clock fields and the fraction rounded down to a multiple of
/// `10^(22 - length)` microseconds.
pub proof fn law_iso_fraction_crops(
    year: int,
    month: nat,
    day: nat,
    hour: nat,
    minute: nat,
    second: nat,
    fraction: nat,
    length: int,
)
    requires
        -32767 <= year <= 32767,
        month < 100,
        day < 100,
        hour < 100,
        minute < 100,
        second < 100,
        fraction < 1_000_000,
        17 <= length <= 22,
    ensures
        iso_fields(
            year_text(year) + iso_suffix_text(month, day, hour, minute, second, fraction).subrange(
                0,
                length,
            ),
        ) == Some(
            (
                year,
                month as int,
                day as int,
                hour as int,
                minute as int,
                second as int,
                fraction - fraction % power_of_ten((22 - length) as nat),
            ),
        ),
{
    lemma_iso_suffix_round_trip(month, day, hour, minute, second, fraction);
    let full = iso_suffix_text(month, day, hour, minute, second, fraction);
    let cropped = full.subrange(0, length);
    lemma_fraction_crop_shape(full, length);
    assert(power_of_ten(0) == 1);
    let digits = full.subrange(16, 22);
    assert(iso_suffix_fields(full).5 == digits_value(digits) * power_of_ten(0));
    assert(iso_suffix_fields(full).5 == fraction);
    assert(digits_value(digits) == fraction as int) by (nonlinear_arith)
        requires
            digits_value(digits) * power_of_ten(0) == fraction,
            power_of_ten(0) == 1,
    ;
    assert(all_digits(digits));
    lemma_fraction_prefix(digits, fraction as int, length - 16);
    assert(cropped.subrange(16, length) =~= digits.subrange(0, length - 16));
    lemma_iso_fields_of_year_and_suffix(year, cropped);
}

/// A well-formed full suffix cut inside its fraction is still well formed and
/// keeps every clock field.
#[verifier::rlimit(40)]
proof fn lemma_fraction_crop_shape(full: Seq<char>, length: int)
    requires
        full.len() == 22,
        is_ascii_chars(full),
        is_iso_suffix(full),
        17 <= length <= 22,
    ensures
        ({
            let cropped = full.subrange(0, length);
            &&& is_ascii_chars(cropped)
            &&& cropped.len() > 0
            &&& cropped[0] == '-'
            &&& is_iso_suffix(cropped)
            &&& iso_suffix_fields(cropped).0 == iso_suffix_fields(full).0
            &&& iso_suffix_fields(cropped).1 == iso_suffix_fields(full).1
            &&& iso_suffix_fields(cropped).2 == iso_suffix_fields(full).2
            &&& iso_suffix_fields(cropped).3 == iso_suffix_fields(full).3
            &&& iso_suffix_fields(cropped).4 == iso_suffix_fields(full).4
            &&& iso_suffix_fields(cropped).5 == digits_value(cropped.subrange(16, length))
                * power_of_ten((22 - length) as nat)
        }),
{
    let cropped = full.subrange(0, length);
    assert forall|i: int| 0 <= i < cropped.len() implies '\0' <= #[trigger] cropped[i] <= '\u{7f}' by {
        assert(cropped[i] == full[i]);
    }
    assert(cropped.subrange(1, 3) =~= full.subrange(1, 3));
    assert(cropped.subrange(4, 6) =~= full.subrange(4, 6));
    assert(cropped.subrange(7, 9) =~= full.subrange(7, 9));
    assert(cropped.subrange(10, 12) =~= full.subrange(10, 12));
    assert(cropped.subrange(13, 15) =~= full.subrange(13, 15));
    assert(cropped[0] == full[0] && cropped[3] == full[3] && cropped[6] == full[6]);
    assert(cropped[9] == full[9] && cropped[12] == full[12] && cropped[15] == full[15]);
    let kept = cropped.subrange(16, length);
    assert(all_digits(kept)) by {
        assert forall|i: int| 0 <= i < kept.len() implies is_digit(#[trigger] kept[i]) by {
            assert(kept[i] == full.subrange(16, 22)[i]);
        }
    }
    assert(is_iso_suffix(cropped));
    assert(((6 - kept.len()) as nat) == (22 - length) as nat);
}

/// The first `n` of six digits, scaled back to six digits, are the value
/// rounded down to a multiple of `10^(6 - n)`.
proof fn lemma_fraction_prefix(digits: Seq<char>, value: int, n: int)
    requires
        0 <= value,
        digits.len() == 6,
        all_digits(digits),
        digits_value(digits) == value,
        1 <= n <= 6,
    ensures
        digits_value(digits.subrange(0, n)) * power_of_ten((6 - n) as nat) == value - value
            % (power_of_ten((6 - n) as nat) as int),
{
    let kept = digits.subrange(0, n);
    let dropped = digits.subrange(n, 6);
    assert(digits =~= kept + dropped);
    assert(all_digits(dropped)) by {
        assert forall|i: int| 0 <= i < dropped.len() implies is_digit(#[trigger] dropped[i]) by {
            assert(dropped[i] == digits[i + n]);
        }
    }
    crate::text::lemma_digits_value_concat(kept, dropped);
    crate::text::lemma_digits_value_below(dropped);
    let scale = power_of_ten((6 - n) as nat);
    assert(dropped.len() == 6 - n);
    lemma_power_of_ten_positive((6 - n) as nat);
    vstd::arithmetic::div_mod::lemma_fundamental_div_mod_converse(
        value,
        scale as int,
        digits_value(kept),
        digits_value(dropped),
    );
}

/// Powers of ten are positive.
proof fn lemma_power_of_ten_positive(k: nat)
    ensures
        power_of_ten(k) >= 1,
    decreases k,
{
    if k > 0 {
        lemma_power_of_ten_positive((k - 1) as nat);
    }
}

/// The clock fields of a time of day.
proof fn lemma_time_of_day(within: int)
    requires
        0 <= within < day_microseconds(),
    ensures
        ({
            let seconds = within / 1_000_000;
            let fraction = within % 1_000_000;
            let hour = seconds / 3600;
            let minute = (seconds % 3600) / 60;
            let second = seconds % 60;
            &&& 0 <= hour <= 23
            &&& 0 <= minute <= 59
            &&& 0 <= second <= 59
            &&& 0 <= fraction < 1_000_000
            &&& 0 <= fraction / 1000 <= 999
            &&& 0 <= fraction % 1000 <= 999
            &&& (hour * 3600 + minute * 60 + second) * 1_000_000 + fraction / 1000 * 1000 + fraction
                % 1000 == within
        }),
{
}

/// The calendar fields of an instant in the supported year range are accepted
/// by `Epoch::from_calendar` and name that instant.
proof fn lemma_calendar_of_instant(microseconds: int)
    requires
        -32767 <= epoch_date(microseconds).0 <= 32767,
    ensures
        ({
            let date = epoch_date(microseconds);
            let within = microseconds % day_microseconds();
            let seconds = within / 1_000_000;
            let fraction = within % 1_000_000;
            let hour = seconds / 3600;
            let minute = (seconds % 3600) / 60;
            let second = seconds % 60;
            &&& calendar_violation(
                date.0,
                date.1,
                date.2,
                hour,
                minute,
                second,
                fraction / 1000,
                fraction % 1000,
            ) is None
            &&& calendar_microseconds(
                date.0,
                date.1,
                date.2,
                hour,
                minute,
                second,
                fraction / 1000,
                fraction % 1000,
            ) == microseconds
        }),
{
    let days = microseconds / day_microseconds();
    let within = microseconds % day_microseconds();
    lemma_date_of_day_valid(days);
    lemma_time_of_day(within);
}

/// The text that `Epoch::to_iso` writes is a year followed by the suffix of
/// the instant's clock fields.
proof fn lemma_iso_text_parts(microseconds: int)
    ensures
        ({
            let date = epoch_date(microseconds);
            let within = microseconds % day_microseconds();
            let seconds = within / 1_000_000;
            iso_text(microseconds) == year_text(date.0) + iso_suffix_text(
                date.1 as nat,
                date.2 as nat,
                (seconds / 3600) as nat,
                ((seconds % 3600) / 60) as nat,
                (seconds % 60) as nat,
                (within % 1_000_000) as nat,
            )
        }),
{
    let date = epoch_date(microseconds);
    let within = microseconds % day_microseconds();
    let seconds = within / 1_000_000;
    assert(iso_text(microseconds) =~= year_text(date.0) + iso_suffix_text(
        date.1 as nat,
        date.2 as nat,
        (seconds / 3600) as nat,
        ((seconds % 3600) / 60) as nat,
        (seconds % 60) as nat,
        (within % 1_000_000) as nat,
    ));
}

/// Round trip of ISO text: the timestamp that `Epoch::to_iso` writes for an
/// instant is read back by `Epoch::from_iso` as that same instant, for every
/// instant whose year lies in the supported range `-32767..=32767`.
pub proof fn law_iso_round_trip(microseconds: int)
    requires
        -32767 <= epoch_date(microseconds).0 <= 32767,
    ensures
        iso_denotes(iso_text(microseconds), microseconds),
{
    let days = microseconds / day_microseconds();
    let within = microseconds % day_microseconds();
    lemma_date_of_day_valid(days);
    lemma_time_of_day(within);
    let date = date_of_day(days);
    let seconds = within / 1_000_000;
    let fraction = within % 1_000_000;
    let hour = seconds / 3600;
    let minute = (seconds % 3600) / 60;
    let second = seconds % 60;
    lemma_iso_suffix_round_trip(
        date.1 as nat,
        date.2 as nat,
        hour as nat,
        minute as nat,
        second as nat,
        fraction as nat,
    );
    let suffix = iso_suffix_text(
        date.1 as nat,
        date.2 as nat,
        hour as nat,
        minute as nat,
        second as nat,
        fraction as nat,
    );
    lemma_iso_fields_of_year_and_suffix(date.0, suffix);
    lemma_iso_text_parts(microseconds);
    lemma_calendar_of_instant(microseconds);
}

/// `result` is what `Epoch::from_iso` returns for `text`.
pub open spec fn is_iso_outcome(result: Result<Epoch>, text: Seq<char>) -> bool {
    match iso_fields(text) {
        None => result is Err && is_invalid_iso(result->Err_0),
        Some(f) => is_calendar_outcome(result, f.0, f.1, f.2, f.3, f.4, f.5, f.6 / 1000, f.6 % 1000),
    }
}

/// `result` is the epoch `offset` microseconds after `start`, or the range
/// error when that instant is outside the signed 64-bit representation.
pub open spec fn is_shift_outcome(result: Result<Epoch>, start: int, offset: int) -> bool {
    if i64::MIN <= start + offset <= i64::MAX {
        result is Ok && result->Ok_0@ == start + offset
    } else {
        result is Err && is_epoch_range_error(result->Err_0)
    }
}

/// `result` is `later - earlier` in microseconds, or the range error when the
/// difference does not fit a signed 64-bit integer.
pub open spec fn is_difference_outcome(result: Result<i64>, later: int, earlier: int) -> bool {
    if i64::MIN <= later - earlier <= i64::MAX {
        result is Ok && result->Ok_0 == later - earlier
    } else {
        result is Err && is_epoch_range_error(result->Err_0)
    }
}

/// `result` is the epoch of a clock reading `magnitude` microseconds from the
/// Unix epoch (before it when `before` holds), or the range error when the
/// magnitude exceeds `i64::MAX` or the epoch is outside the representation.
pub open spec fn is_clock_outcome(result: Result<Epoch>, before: bool, magnitude: int) -> bool {
    let unix = if before { -magnitude } else { magnitude };
    let mjd2000 = unix - unix_microseconds_at_mjd2000();
    if magnitude <= i64::MAX && i64::MIN <= mjd2000 {
        result is Ok && result->Ok_0@ == mjd2000
    } else {
        result is Err && is_epoch_range_error(result->Err_0)
    }
}

/// Whether `error` is the error reported for an epoch outside the signed
/// microsecond representation.
pub open spec fn is_epoch_range_error(error: PykepError) -> bool {
    is_invalid_input(error, "epoch"@, "value is outside the signed microsecond representation"@)
}

/// Day numbers of the years `-32767..=32767` fit comfortably in the epoch range.
proof fn lemma_civil_day_bounds(year: int, month: int, day: int)
    requires
        -32767 <= year <= 32767,
        1 <= month <= 12,
        1 <= day <= 31,
    ensures
        -20_000_000 <= civil_day(year, month, day) <= 20_000_000,
{
}

/// The bytes of ASCII text are its characters.
proof fn lemma_ascii_bytes(text: &str, bytes: Seq<u8>)
    requires
        vstd::string::is_ascii(text),
        bytes == text.spec_bytes(),
    ensures
        bytes.len() == text@.len(),
        forall|i: int| 0 <= i < bytes.len() ==> #[trigger] bytes[i] as int == text@[i] as int,
{
    vstd::string::is_ascii_spec_bytes(text);
    assert forall|i: int| 0 <= i < bytes.len() implies #[trigger] bytes[i] as int == text@[i] as int by {
        let c = text@[i];
        assert('\0' <= c <= '\u{7f}');
        assert(bytes[i] == c as u8);
    }
}

fn invalid_iso() -> (error: PykepError)
    ensures
        is_invalid_iso(error),
{
    PykepError::InvalidInput {
        parameter: "iso",
        reason: "expected YYYY-MM[-DD[THH[:MM[:SS[.ffffff]]]]] with an optional negative and four- or five-digit year".to_owned(),
    }
}

/// Reads the ASCII decimal digits `text[start..end]` as a number.
fn parse_component(text: &str, bytes: &[u8], start: usize, end: usize) -> (result: Result<u32>)
    requires
        vstd::string::is_ascii(text),
        bytes@ == text.spec_bytes(),
        start <= end <= bytes@.len(),
        end - start <= 6,
    ensures
        all_digits(text@.subrange(start as int, end as int)) ==> result is Ok && result->Ok_0
            == digits_value(text@.subrange(start as int, end as int)),
        result is Ok ==> result->Ok_0 < power_of_ten((end - start) as nat),
        !all_digits(text@.subrange(start as int, end as int)) ==> result is Err && is_invalid_iso(
            result->Err_0,
        ),
{
    proof {
        lemma_ascii_bytes(text, bytes@);
    }
    let ghost t = text@;
    let mut value: u32 = 0;
    let mut index = start;
    while index < end
        invariant
            start <= index <= end <= bytes@.len(),
            end - start <= 6,
            t == text@,
            bytes@.len() == t.len(),
            forall|i: int| 0 <= i < bytes@.len() ==> #[trigger] bytes@[i] as int == t[i] as int,
            all_digits(t.subrange(start as int, index as int)),
            value == digits_value(t.subrange(start as int, index as int)),
            value < power_of_ten((index - start) as nat),
        decreases end - index,
    {
        let byte = bytes[index];
        if byte < 48 || byte > 57 {
            proof {
                let c = t[index as int];
                assert(t.subrange(start as int, end as int)[index - start] == c);
                assert(c as int == byte as int);
                assert(!is_digit(c));
                assert(!all_digits(t.subrange(start as int, end as int)));
            }
            return Err(invalid_iso());
        }
        proof {
            let next = t.subrange(start as int, index + 1);
            assert(next.drop_last() =~= t.subrange(start as int, index as int));
            assert(next.last() == t[index as int]);
            assert(power_of_ten((index + 1 - start) as nat) == 10 * power_of_ten((index - start) as nat));
            assert forall|i: int| 0 <= i < next.len() implies is_digit(#[trigger] next[i]) by {
                if i < next.len() - 1 {
                    assert(next[i] == t.subrange(start as int, index as int)[i]);
                }
            }
            reveal_with_fuel(power_of_ten, 7);
        }
        value = value * 10 + (byte - 48) as u32;
        index += 1;
    }
    Ok(value)
}

/// A field of the text after position `offset` is the matching part of the text.
proof fn lemma_subrange_of_suffix(t: Seq<char>, offset: int, a: int, b: int)
    requires
        0 <= offset,
        0 <= a <= b,
        offset + b <= t.len(),
    ensures
        t.subrange(offset, t.len() as int).subrange(a, b) == t.subrange(offset + a, offset + b),
{
    assert(t.subrange(offset, t.len() as int).subrange(a, b) =~= t.subrange(offset + a, offset + b));
}

/// Microseconds per unit of the last digit of a fraction with `digits` digits.
fn fraction_scale(digits: usize) -> (scale: u32)
    requires
        1 <= digits <= 6,
    ensures
        scale == power_of_ten((6 - digits) as nat),
{
    proof {
        reveal_with_fuel(power_of_ten, 6);
    }
    match digits {
        1 => 100_000,
        2 => 10_000,
        3 => 1_000,
        4 => 100,
        5 => 10,
        _ => 1,
    }
}

/// Finds the first `-` at or after `start`.
fn find_dash(text: &str, bytes: &[u8], start: usize) -> (found: Option<usize>)
    requires
        vstd::string::is_ascii(text),
        bytes@ == text.spec_bytes(),
        start <= bytes@.len(),
    ensures
        match found {
            Some(index) => first_dash_from(text@, start as int) == Some(index as int) && start
                <= index < bytes@.len(),
            None => first_dash_from(text@, start as int) is None,
        },
{
    proof {
        lemma_ascii_bytes(text, bytes@);
    }
    let ghost t = text@;
    let length = bytes.len();
    let mut index = start;
    while index < length && bytes[index] != 45
        invariant
            start <= index <= length,
            length == bytes@.len() == t.len(),
            t == text@,
            forall|i: int| 0 <= i < bytes@.len() ==> #[trigger] bytes@[i] as int == t[i] as int,
            first_dash_from(t, start as int) == first_dash_from(t, index as int),
        decreases length - index,
    {
        index += 1;
    }
    if index < length {
        Some(index)
    } else {
        None
    }
}

/// Reads the fields that follow the year of ISO text, the year ending at `year_end`.
#[verifier::rlimit(60)]
fn parse_iso_suffix(text: &str, bytes: &[u8], year_end: usize) -> (result: Result<
    (u32, u32, u32, u32, u32, u32),
>)
    requires
        vstd::string::is_ascii(text),
        bytes@ == text.spec_bytes(),
        year_end < bytes@.len(),
    ensures
        ({
            let suffix = text@.subrange(year_end as int, text@.len() as int);
            let f = iso_suffix_fields(suffix);
            &&& is_iso_suffix(suffix) ==> result is Ok && result->Ok_0.0 == f.0 && result->Ok_0.1
                == f.1 && result->Ok_0.2 == f.2 && result->Ok_0.3 == f.3 && result->Ok_0.4 == f.4
                && result->Ok_0.5 == f.5
            &&& !is_iso_suffix(suffix) ==> result is Err && is_invalid_iso(result->Err_0)
        }),
{
    proof {
        lemma_ascii_bytes(text, bytes@);
        reveal_with_fuel(power_of_ten, 7);
    }
    let ghost t = text@;
    let length = bytes.len();
    let suffix_length = length - year_end;
    let ghost suffix = t.subrange(year_end as int, length as int);
    if !(suffix_length == 3 || suffix_length == 6 || suffix_length == 9 || suffix_length == 12
        || suffix_length == 15 || (17 <= suffix_length && suffix_length <= 22)) {
        return Err(invalid_iso());
    }
    let has_separators = bytes[year_end] == 45 && (suffix_length < 6 || bytes[year_end + 3] == 45)
        && (suffix_length < 9 || bytes[year_end + 6] == 84) && (suffix_length < 12 || bytes[year_end
        + 9] == 58) && (suffix_length < 15 || bytes[year_end + 12] == 58) && (suffix_length < 17
        || bytes[year_end + 15] == 46);
    proof {
        assert(suffix[0] == t[year_end as int]);
        assert(suffix_length >= 6 ==> suffix[3] == t[year_end + 3]);
        assert(suffix_length >= 9 ==> suffix[6] == t[year_end + 6]);
        assert(suffix_length >= 12 ==> suffix[9] == t[year_end + 9]);
        assert(suffix_length >= 15 ==> suffix[12] == t[year_end + 12]);
        assert(suffix_length >= 17 ==> suffix[15] == t[year_end + 15]);
    }
    if !has_separators {
        return Err(invalid_iso());
    }
    proof {
        lemma_subrange_of_suffix(t, year_end as int, 1, 3);
    }
    let month = parse_component(text, bytes, year_end + 1, year_end + 3)?;
    let day = if suffix_length >= 6 {
        proof {
            lemma_subrange_of_suffix(t, year_end as int, 4, 6);
        }
        parse_component(text, bytes, year_end + 4, year_end + 6)?
    } else {
        1
    };
    let hour = if suffix_length >= 9 {
        proof {
            lemma_subrange_of_suffix(t, year_end as int, 7, 9);
        }
        parse_component(text, bytes, year_end + 7, year_end + 9)?
    } else {
        0
    };
    let minute = if suffix_length >= 12 {
        proof {
            lemma_subrange_of_suffix(t, year_end as int, 10, 12);
        }
        parse_component(text, bytes, year_end + 10, year_end + 12)?
    } else {
        0
    };
    let second = if suffix_length >= 15 {
        proof {
            lemma_subrange_of_suffix(t, year_end as int, 13, 15);
        }
        parse_component(text, bytes, year_end + 13, year_end + 15)?
    } else {
        0
    };
    let fractional_microseconds = if suffix_length >= 17 {
        proof {
            lemma_subrange_of_suffix(t, year_end as int, 16, suffix_length as int);
        }
        let parsed = parse_component(text, bytes, year_end + 16, length)?;
        let scale = fraction_scale(length - year_end - 16);
        proof {
            assert(parsed * scale < 1_000_000) by (nonlinear_arith)
                requires
                    parsed < power_of_ten((length - year_end - 16) as nat),
                    scale == power_of_ten((6 - (length - year_end - 16)) as nat),
                    1 <= length - year_end - 16 <= 6,
                    power_of_ten(0) == 1,
                    power_of_ten(1) == 10,
                    power_of_ten(2) == 100,
                    power_of_ten(3) == 1000,
                    power_of_ten(4) == 10000,
                    power_of_ten(5) == 100000,
                    power_of_ten(6) == 1000000,
            ;
        }
        parsed * scale
    } else {
        0
    };
    Ok((month, day, hour, minute, second, fractional_microseconds))
}

/// Reads the calendar fields of cropped ISO text.
fn parse_iso_fields(text: &str) -> (result: Result<(i32, u32, u32, u32, u32, u32, u32)>)
    ensures
        match iso_fields(text@) {
            None => result is Err && is_invalid_iso(result->Err_0),
            Some(f) => result is Ok && result->Ok_0.0 == f.0 && result->Ok_0.1 == f.1
                && result->Ok_0.2 == f.2 && result->Ok_0.3 == f.3 && result->Ok_0.4 == f.4
                && result->Ok_0.5 == f.5 && result->Ok_0.6 == f.6,
        },
{
    if !text.is_ascii() {
        return Err(invalid_iso());
    }
    let bytes = text.as_bytes();
    proof {
        lemma_ascii_bytes(text, bytes@);
        reveal_with_fuel(power_of_ten, 6);
    }
    let ghost t = text@;
    let length = bytes.len();
    let separator_search_start: usize = if length > 0 && bytes[0] == 45 { 1 } else { 0 };
    proof {
        if length > 0 {
            assert((bytes@[0] == 45) == (t[0] == '-'));
        }
    }
    let year_end = match find_dash(text, bytes, separator_search_start) {
        Some(index) => index,
        None => return Err(invalid_iso()),
    };
    let digit_count = year_end - separator_search_start;
    let ghost digits = t.subrange(separator_search_start as int, year_end as int);
    let ghost suffix = t.subrange(year_end as int, length as int);
    if !(4 <= digit_count && digit_count <= 5) {
        return Err(invalid_iso());
    }
    let year_digits = parse_component(text, bytes, separator_search_start, year_end)?;
    let (month, day, hour, minute, second, fractional_microseconds) = parse_iso_suffix(
        text,
        bytes,
        year_end,
    )?;
    let year: i32 = if separator_search_start == 1 {
        -(year_digits as i32)
    } else {
        year_digits as i32
    };
    Ok((year, month, day, hour, minute, second, fractional_microseconds))
}

fn invalid_calendar(parameter: &'static str, reason: String) -> (error: PykepError)
    ensures
        is_invalid_input(error, parameter@, reason@),
{
    PykepError::InvalidInput { parameter, reason }
}

fn epoch_range_error() -> (error: PykepError)
    ensures
        is_epoch_range_error(error),
{
    PykepError::InvalidInput {
        parameter: "epoch",
        reason: "value is outside the signed microsecond representation".to_owned(),
    }
}

/// Checks that `value` is at most `upper`.
fn check_upper(parameter: &'static str, value: u32, upper: u32, reason: &'static str) -> (result: Result<()>)
    ensures
        value <= upper ==> result is Ok,
        value > upper ==> result is Err && is_invalid_input(result->Err_0, parameter@, reason@),
{
    if value > upper {
        Err(invalid_calendar(parameter, reason.to_owned()))
    } else {
        Ok(())
    }
}

impl Epoch {
    /// Constructs MJD2000 zero (`2000-01-01T00:00:00.000000`).
    pub fn new() -> (epoch: Self)
        ensures
            epoch@ == 0,
    {
        Self { microseconds_mjd2000: 0 }
    }

    /// Constructs an epoch from a validated proleptic-Gregorian calendar.
    ///
    /// `hour`, `minute`, and `second` use their conventional ranges.
    /// `millisecond` and `microsecond` must each be in `0..=999`; their sum is
    /// the six-digit fractional second.
    pub fn from_calendar(
        year: i32,
        month: u32,
        day: u32,
        hour: u32,
        minute: u32,
        second: u32,
        millisecond: u32,
        microsecond: u32,
    ) -> (result: Result<Self>)
        ensures
            is_calendar_outcome(
                result,
                year as int,
                month as int,
                day as int,
                hour as int,
                minute as int,
                second as int,
                millisecond as int,
                microsecond as int,
            ),
    {
        if !(-32_767 <= year && year <= 32_767) {
            return Err(invalid_calendar("year", "must be in -32767..=32767".to_owned()));
        }
        if !(1 <= month && month <= 12) {
            return Err(invalid_calendar("month", "must be in 1..=12".to_owned()));
        }
        let maximum_day = days_in_month(year, month);
        if day == 0 || day > maximum_day {
            let mut reason = "must be in 1..=".to_owned();
            append_decimal(&mut reason, maximum_day as u64);
            reason.append(" for the selected month");
            return Err(invalid_calendar("day", reason));
        }
        check_upper("hour", hour, 23, "must be in 0..=23")?;
        check_upper("minute", minute, 59, "must be in 0..=59")?;
        check_upper("second", second, 59, "must be in 0..=59")?;
        check_upper("millisecond", millisecond, 999, "must be in 0..=999")?;
        check_upper("microsecond", microsecond, 999, "must be in 0..=999")?;

        let days_from_unix = days_from_civil(year as i64, month, day);
        let days_from_mjd2000 = days_from_unix - UNIX_DAYS_AT_MJD2000;
        assert(-20_000_000 <= days_from_mjd2000 <= 20_000_000) by {
            lemma_civil_day_bounds(year as int, month as int, day as int);
        }
        let day_microseconds = match days_from_mjd2000.checked_mul(MICROSECONDS_PER_DAY) {
            Some(value) => value,
            None => return Err(epoch_range_error()),
        };
        let second_of_day = hour as i64 * 3_600 + minute as i64 * 60 + second as i64;
        let time_microseconds = second_of_day * MICROSECONDS_PER_SECOND + millisecond as i64
            * 1_000 + microsecond as i64;
        let microseconds_mjd2000 = match day_microseconds.checked_add(time_microseconds) {
            Some(value) => value,
            None => return Err(epoch_range_error()),
        };
        Ok(Self { microseconds_mjd2000 })
    }

    /// Parses a cropped ISO calendar string.
    ///
    /// Accepted forms are `YYYY-MM`, `YYYY-MM-DD`, and incremental suffixes
    /// through `YYYY-MM-DDTHH:MM:SS.ffffff`. Missing day/time components
    /// default to the first day at midnight. The year has four or five ASCII
    /// digits and may have a leading minus sign, covering every year emitted
    /// by [`Self::to_iso`].
    pub fn from_iso(text: &str) -> (result: Result<Self>)
        ensures
            is_iso_outcome(result, text@),
    {
        let (year, month, day, hour, minute, second, fractional_microseconds) = parse_iso_fields(
            text,
        )?;
        Self::from_calendar(
            year,
            month,
            day,
            hour,
            minute,
            second,
            fractional_microseconds / 1_000,
            fractional_microseconds % 1_000,
        )
    }

    /// The epoch `absolute_microseconds - offset_microseconds` from MJD2000 zero:
    /// the last step of a day-count constructor, which scales its day count by
    /// the microseconds of a day and truncates it to `absolute_microseconds`,
    /// counted from the zero of its own scale, `offset_microseconds` before
    /// MJD2000 zero.
    ///
    /// # Errors
    ///
    /// Returns an error naming `parameter` when the difference is outside the
    /// representation.
    pub fn from_offset_microseconds(
        parameter: &'static str,
        absolute_microseconds: i64,
        offset_microseconds: i64,
    ) -> (result: Result<Self>)
        ensures
            i64::MIN <= absolute_microseconds - offset_microseconds <= i64::MAX ==> result is Ok
                && result->Ok_0@ == absolute_microseconds - offset_microseconds,
            !(i64::MIN <= absolute_microseconds - offset_microseconds <= i64::MAX) ==> result is Err
                && is_invalid_input(
                result->Err_0,
                parameter@,
                "day count is outside the representable epoch range"@,
            ),
    {
        match absolute_microseconds.checked_sub(offset_microseconds) {
            Some(microseconds_mjd2000) => Ok(Self { microseconds_mjd2000 }),
            None => Err(
                PykepError::InvalidInput {
                    parameter,
                    reason: "day count is outside the representable epoch range".to_owned(),
                },
            ),
        }
    }

    /// Adds a signed integer microsecond duration.
    pub fn checked_add_microseconds(self, microseconds: i64) -> (result: Result<Self>)
        ensures
            is_shift_outcome(result, self@, microseconds as int),
    {
        match self.microseconds_mjd2000.checked_add(microseconds) {
            Some(microseconds_mjd2000) => Ok(Self { microseconds_mjd2000 }),
            None => Err(epoch_range_error()),
        }
    }

    /// Subtracts a signed integer microsecond duration by adding its negation.
    pub fn checked_sub_microseconds(self, microseconds: i64) -> (result: Result<Self>)
        ensures
            microseconds == i64::MIN ==> result is Err && is_epoch_range_error(result->Err_0),
            microseconds != i64::MIN ==> is_shift_outcome(result, self@, -microseconds),
    {
        if microseconds == i64::MIN {
            return Err(epoch_range_error());
        }
        self.checked_add_microseconds(-microseconds)
    }

    /// Returns `self - other` as signed integer microseconds.
    pub fn duration_microseconds_since(self, other: Self) -> (result: Result<i64>)
        ensures
            is_difference_outcome(result, self@, other@),
    {
        match self.microseconds_mjd2000.checked_sub(other.microseconds_mjd2000) {
            Some(difference) => Ok(difference),
            None => Err(epoch_range_error()),
        }
    }

    /// Interprets a clock reading: `magnitude_microseconds` from the Unix epoch,
    /// before it when `before_unix_epoch` holds.
    pub fn from_clock_reading(before_unix_epoch: bool, magnitude_microseconds: u128) -> (result:
        Result<Self>)
        ensures
            is_clock_outcome(result, before_unix_epoch, magnitude_microseconds as int),
    {
        if magnitude_microseconds > i64::MAX as u128 {
            return Err(epoch_range_error());
        }
        let magnitude = magnitude_microseconds as i64;
        let unix_microseconds = if before_unix_epoch {
            -magnitude
        } else {
            magnitude
        };
        let y2k_microseconds = UNIX_SECONDS_AT_MJD2000 * MICROSECONDS_PER_SECOND;
        match unix_microseconds.checked_sub(y2k_microseconds) {
            Some(microseconds_mjd2000) => Ok(Self { microseconds_mjd2000 }),
            None => Err(epoch_range_error()),
        }
    }

    /// Samples the system clock and truncates it to microsecond resolution.
    ///
    /// The result is the interpretation of some clock reading, as
    /// [`Self::from_clock_reading`] gives it; which reading is not known. An
    /// error is only ever the range error for a clock outside the representation.
    pub fn now() -> (result: Result<Self>)
        ensures
            exists|before: bool, magnitude: nat| #[trigger]
                is_clock_outcome(result, before, magnitude as int),
            result is Err ==> is_epoch_range_error(result->Err_0),
    {
        let time = system_time_now();
        let (before_unix_epoch, magnitude) = match duration_since_unix_epoch(&time) {
            Ok(duration) => (false, duration_microseconds(&duration)),
            Err(error) => (true, duration_microseconds(&clock_error_duration(&error))),
        };
        let result = Self::from_clock_reading(before_unix_epoch, magnitude);
        proof {
            let reading = magnitude as nat;
            assert(is_clock_outcome(result, before_unix_epoch, reading as int));
        }
        result
    }

    /// The ISO text of this epoch, as its display form.
    pub fn to_string(&self) -> (text: String)
        ensures
            text@ == iso_text(self@),
    {
        self.to_iso()
    }

    /// Returns the signed internal microsecond count from MJD2000 zero.
    pub fn microseconds_since_mjd2000(self) -> (microseconds: i64)
        ensures
            microseconds == self@,
    {
        self.microseconds_mjd2000
    }

    /// Formats a proleptic-Gregorian ISO timestamp with six fractional digits.
    pub fn to_iso(self) -> (text: String)
        ensures
            text@ == iso_text(self@),
    {
        let days = match self.microseconds_mjd2000.checked_div_euclid(MICROSECONDS_PER_DAY) {
            Some(value) => value,
            None => 0,
        };
        let within_day = match self.microseconds_mjd2000.checked_rem_euclid(MICROSECONDS_PER_DAY) {
            Some(value) => value,
            None => 0,
        };
        assert(-200_000_000 <= days <= 200_000_000) by (nonlinear_arith)
            requires
                days == self@ / day_microseconds(),
                i64::MIN <= self@ <= i64::MAX,
        ;
        let (year, month, day) = civil_from_days(days + UNIX_DAYS_AT_MJD2000);
        let seconds = within_day / MICROSECONDS_PER_SECOND;
        let fractional = within_day % MICROSECONDS_PER_SECOND;
        let hour = seconds / 3_600;
        let minute = (seconds % 3_600) / 60;
        let second = seconds % 60;
        let mut text = String::new();
        if year >= 0 {
            append_zero_padded(&mut text, year as u64, 4);
        } else {
            text.append("-");
            append_zero_padded(&mut text, (-year) as u64, 4);
        }
        text.append("-");
        append_zero_padded(&mut text, month as u64, 2);
        text.append("-");
        append_zero_padded(&mut text, day as u64, 2);
        text.append("T");
        append_zero_padded(&mut text, hour as u64, 2);
        text.append(":");
        append_zero_padded(&mut text, minute as u64, 2);
        text.append(":");
        append_zero_padded(&mut text, second as u64, 2);
        text.append(".");
        append_zero_padded(&mut text, fractional as u64, 6);
        proof {
            assert(text@ =~= iso_text(self@));
        }
        text
    }
}

impl Default for Epoch {
    /// MJD2000 zero.
    fn default() -> (epoch: Self)
        ensures
            epoch@ == 0,
    {
        Self::new()
    }
}

impl core::str::FromStr for Epoch {
    type Err = PykepError;

    /// Parses a cropped ISO calendar string, as `Epoch::from_iso` does.
    fn from_str(text: &str) -> (result: Result<Self>)
        ensures
            is_iso_outcome(result, text@),
    {
        Self::from_iso(text)
    }
}

/// The year of the calendar date that contains an epoch.
pub open spec fn epoch_year(epoch: Epoch) -> int {
    epoch_date(epoch@).0
}

/// Round trip through ISO text: `Epoch::from_iso` applied to the text that
/// `Epoch::to_iso` writes for an epoch returns that same epoch, for every epoch
/// whose year lies in the supported range `-32767..=32767`.
pub proof fn law_epoch_iso_round_trip(epoch: Epoch, result: Result<Epoch>)
    requires
        -32767 <= epoch_year(epoch) <= 32767,
        is_iso_outcome(result, iso_text(epoch@)),
    ensures
        result == Ok::<Epoch, PykepError>(epoch),
{
    law_iso_round_trip(epoch@);
    let e = result->Ok_0;
    assert(e.microseconds_mjd2000 == epoch.microseconds_mjd2000);
}

/// Shifting an epoch and measuring the distance back to it gives the shift.
pub proof fn law_shift_then_measure(
    start: Epoch,
    offset: i64,
    shifted: Result<Epoch>,
    measured: Result<i64>,
)
    requires
        is_shift_outcome(shifted, start@, offset as int),
        shifted is Ok,
        is_difference_outcome(measured, shifted->Ok_0@, start@),
    ensures
        measured == Ok::<i64, PykepError>(offset),
{
}

/// Adding and then subtracting the same number of microseconds restores the epoch.
pub proof fn law_add_then_subtract(start: Epoch, offset: i64, added: Result<Epoch>, restored: Result<Epoch>)
    requires
        is_shift_outcome(added, start@, offset as int),
        added is Ok,
        offset != i64::MIN,
        is_shift_outcome(restored, added->Ok_0@, -offset),
    ensures
        restored == Ok::<Epoch, PykepError>(start),
{
    let e = restored->Ok_0;
    assert(e.microseconds_mjd2000 == start.microseconds_mjd2000);
}

/// Calendar fields survive a round trip through an epoch: the ISO text of the
/// epoch that `Epoch::from_calendar` accepts shows the same year, month, day,
/// time of day and six-digit fraction.
pub proof fn law_calendar_round_trip(
    year: int,
    month: int,
    day: int,
    hour: int,
    minute: int,
    second: int,
    millisecond: int,
    microsecond: int,
)
    requires
        calendar_violation(year, month, day, hour, minute, second, millisecond, microsecond) is None,
        0 <= day,
        0 <= hour && 0 <= minute && 0 <= second && 0 <= millisecond && 0 <= microsecond,
    ensures
        iso_text(
            calendar_microseconds(year, month, day, hour, minute, second, millisecond, microsecond),
        ) == year_text(year) + iso_suffix_text(
            month as nat,
            day as nat,
            hour as nat,
            minute as nat,
            second as nat,
            (millisecond * 1000 + microsecond) as nat,
        ),
{
    let microseconds = calendar_microseconds(
        year,
        month,
        day,
        hour,
        minute,
        second,
        millisecond,
        microsecond,
    );
    let days = civil_day(year, month, day);
    let time_of_day = (hour * 3600 + minute * 60 + second) * 1_000_000 + millisecond * 1000
        + microsecond;
    assert(0 <= time_of_day < day_microseconds());
    assert(microseconds == days * day_microseconds() + time_of_day);
    assert(microseconds / day_microseconds() == days) by (nonlinear_arith)
        requires
            microseconds == days * day_microseconds() + time_of_day,
            0 <= time_of_day < day_microseconds(),
            day_microseconds() == 86_400_000_000,
    ;
    assert(microseconds % day_microseconds() == time_of_day) by (nonlinear_arith)
        requires
            microseconds == days * day_microseconds() + time_of_day,
            0 <= time_of_day < day_microseconds(),
            day_microseconds() == 86_400_000_000,
    ;
    crate::time::calendar::lemma_date_of_day(year, month, day);
    lemma_clock_fields(hour, minute, second, millisecond, microsecond);
    lemma_iso_text_parts(microseconds);
}

/// Reading the clock fields back out of a time of day.
proof fn lemma_clock_fields(hour: int, minute: int, second: int, millisecond: int, microsecond: int)
    requires
        0 <= hour <= 23,
        0 <= minute <= 59,
        0 <= second <= 59,
        0 <= millisecond <= 999,
        0 <= microsecond <= 999,
    ensures
        ({
            let time_of_day = (hour * 3600 + minute * 60 + second) * 1_000_000 + millisecond
                * 1000 + microsecond;
            let seconds = time_of_day / 1_000_000;
            &&& seconds == hour * 3600 + minute * 60 + second
            &&& time_of_day % 1_000_000 == millisecond * 1000 + microsecond
            &&& seconds / 3600 == hour
            &&& (seconds % 3600) / 60 == minute
            &&& seconds % 60 == second
        }),
{
}

/// An epoch is its microsecond count: two epochs are equal exactly when their
/// counts are, and every count is a signed 64-bit integer.
pub proof fn law_epoch_is_its_count(a: Epoch, b: Epoch)
    ensures
        (a == b) <==> (a@ == b@),
        i64::MIN <= a@ <= i64::MAX,
{
}

/// The count of an epoch determines it: shifting MJD2000 zero by the count
/// of `epoch` gives back `epoch`.
pub proof fn law_count_determines_epoch(epoch: Epoch, shifted: Result<Epoch>)
    requires
        is_shift_outcome(shifted, 0, epoch@),
    ensures
        shifted == Ok::<Epoch, PykepError>(epoch),
{
    law_epoch_is_its_count(shifted->Ok_0, epoch);
}

/// Calendar order is epoch order: of two accepted calendar components, the one
/// whose date comes earlier by year, then month, then day names the earlier
/// instant, whatever the times of day.
pub proof fn law_earlier_date_earlier_epoch(
    first: (int, int, int, int, int, int, int, int),
    second: (int, int, int, int, int, int, int, int),
)
    requires
        calendar_violation(first.0, first.1, first.2, first.3, first.4, first.5, first.6, first.7)
            is None,
        calendar_violation(
            second.0,
            second.1,
            second.2,
            second.3,
            second.4,
            second.5,
            second.6,
            second.7,
        ) is None,
        0 <= first.2 && 0 <= first.3 && 0 <= first.4 && 0 <= first.5 && 0 <= first.6 && 0
            <= first.7,
        0 <= second.2 && 0 <= second.3 && 0 <= second.4 && 0 <= second.5 && 0 <= second.6 && 0
            <= second.7,
        first.0 < second.0 || (first.0 == second.0 && first.1 < second.1) || (first.0 == second.0
            && first.1 == second.1 && first.2 < second.2),
    ensures
        calendar_microseconds(first.0, first.1, first.2, first.3, first.4, first.5, first.6, first.7)
            < calendar_microseconds(
            second.0,
            second.1,
            second.2,
            second.3,
            second.4,
            second.5,
            second.6,
            second.7,
        ),
{
    crate::time::calendar::law_calendar_order(first.0, first.1, first.2, second.0, second.1, second.2);
    let a = civil_day(first.0, first.1, first.2);
    let b = civil_day(second.0, second.1, second.2);
    let ta = (first.3 * 3600 + first.4 * 60 + first.5) * 1_000_000 + first.6 * 1000 + first.7;
    let tb = (second.3 * 3600 + second.4 * 60 + second.5) * 1_000_000 + second.6 * 1000 + second.7;
    assert(0 <= ta < day_microseconds());
    assert(0 <= tb);
    assert(a * day_microseconds() + day_microseconds() <= b * day_microseconds()) by (nonlinear_arith)
        requires
            a + 1 <= b,
            day_microseconds() == 86_400_000_000,
    ;
}

} // verus!

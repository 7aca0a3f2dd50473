//! Moving a file to the Trash by hand: the names it may have there, and the note beside it that
//! says where it came from, so that it can be put back.

use vstd::prelude::*;

use crate::config::joined_path;
use crate::count::{append_decimal, append_padded, decimal, digit, padded};
use crate::fonts::join;
use crate::names::{copy_name, name_view, Name};
use crate::text::{append, literal};

verus! {

/// How many names are tried before giving up.
pub const MOST_NAMES: u32 = 10_000;

/// Whether a byte of a path is written as it is.
pub open spec fn is_plain(byte: u8) -> bool {
    ||| 65 <= byte <= 90
    ||| 97 <= byte <= 122
    ||| 48 <= byte <= 57
    ||| byte == 47
    ||| byte == 45
    ||| byte == 95
    ||| byte == 46
    ||| byte == 126
}

/// The character of a hexadecimal digit.
pub open spec fn hex_digit(value: int) -> char {
    if value < 10 {
        (48 + value) as char
    } else {
        (55 + value) as char
    }
}

/// A byte as it is written: itself, or a per cent sign and its two digits.
pub open spec fn byte_code(byte: u8) -> Seq<char> {
    if is_plain(byte) {
        seq![byte as char]
    } else {
        seq!['%', hex_digit(byte as int / 16), hex_digit(byte as int % 16)]
    }
}

/// Bytes as they are written.
pub open spec fn percent_encoded(bytes: Seq<u8>) -> Seq<char>
    decreases bytes.len(),
{
    if bytes.len() == 0 {
        Seq::empty()
    } else {
        byte_code(bytes[0]) + percent_encoded(bytes.drop_first())
    }
}

/// The value of a hexadecimal digit.
pub open spec fn hex_value(digit: char) -> int {
    if digit as int <= 57 {
        digit as int - 48
    } else {
        digit as int - 55
    }
}

/// The bytes that a written path stands for.
pub open spec fn percent_decoded(text: Seq<char>) -> Seq<u8>
    decreases text.len(),
{
    if text.len() == 0 {
        Seq::empty()
    } else if text[0] == '%' && text.len() >= 3 {
        seq![(hex_value(text[1]) * 16 + hex_value(text[2])) as u8] + percent_decoded(text.skip(3))
    } else {
        seq![text[0] as u8] + percent_decoded(text.drop_first())
    }
}

/// A written path reads back as the bytes it was.
pub proof fn percent_encoding_reads_back(bytes: Seq<u8>)
    ensures
        percent_decoded(percent_encoded(bytes)) == bytes,
    decreases bytes.len(),
{
    if bytes.len() > 0 {
        let rest = bytes.drop_first();
        percent_encoding_reads_back(rest);
        let text = percent_encoded(bytes);
        if is_plain(bytes[0]) {
            assert(text.drop_first() =~= percent_encoded(rest));
            assert(text[0] == bytes[0] as char);
        } else {
            assert(text.skip(3) =~= percent_encoded(rest));
        }
        assert(percent_decoded(text) =~= bytes);
    } else {
        assert(percent_decoded(percent_encoded(bytes)) =~= bytes);
    }
}

fn hex_char(value: u8) -> (c: char)
    requires
        value < 16,
    ensures
        c == hex_digit(value as int),
{
    if value < 10 {
        (48 + value) as char
    } else {
        (55 + value) as char
    }
}

/// A path as it is written in a note: slashes kept, and anything that is not a letter, a digit
/// or one of a few marks as a per cent sign and two digits.
pub fn percent_encode(bytes: &[u8]) -> (text: String)
    ensures
        text@ == percent_encoded(bytes@),
{
    let mut text = String::new();
    let mut i: usize = 0;
    assert(bytes@.skip(0) =~= bytes@);
    assert(text@ + percent_encoded(bytes@) =~= percent_encoded(bytes@));
    while i < bytes.len()
        invariant
            i <= bytes.len(),
            text@ + percent_encoded(bytes@.skip(i as int)) == percent_encoded(bytes@),
        decreases bytes.len() - i,
    {
        let byte: u8 = bytes[i];
        let ghost so_far = text@;
        let ghost left = bytes@.skip(i as int);
        assert(left.drop_first() =~= bytes@.skip(i + 1));
        if (65 <= byte && byte <= 90) || (97 <= byte && byte <= 122) || (48 <= byte && byte <= 57)
            || byte == 47 || byte == 45 || byte == 95 || byte == 46 || byte == 126 {
            text.push(byte as char);
        } else {
            text.push('%');
            text.push(hex_char(byte / 16));
            text.push(hex_char(byte % 16));
        }
        assert(text@ + percent_encoded(left.drop_first()) =~= so_far + percent_encoded(left));
        i += 1;
    }
    assert(bytes@.skip(i as int).len() == 0);
    assert(text@ + percent_encoded(bytes@.skip(i as int)) =~= text@);
    text
}

/// Whether a year has a leap day.
pub open spec fn is_leap(year: int) -> bool {
    year % 4 == 0 && (year % 100 != 0 || year % 400 == 0)
}

/// How many days a month has.
pub open spec fn days_in_month(year: int, month: int) -> int {
    if month == 2 {
        if is_leap(year) {
            29
        } else {
            28
        }
    } else if month == 4 || month == 6 || month == 9 || month == 11 {
        30
    } else {
        31
    }
}

/// How many days of a year are before a month.
pub open spec fn days_before_month(year: int, month: int) -> int
    decreases month,
{
    if month <= 1 {
        0
    } else {
        days_before_month(year, month - 1) + days_in_month(year, month - 1)
    }
}

/// How many leap days there are in the years from 1 to this one.
pub open spec fn leap_days(year: int) -> int {
    year / 4 - year / 100 + year / 400
}

/// How many days there are from the first of 1970 to the first of a year.
pub open spec fn days_before_year(year: int) -> int {
    365 * (year - 1970) + leap_days(year - 1) - leap_days(1969)
}

/// A year is as long as its days, so the count to a year is that of the years before it.
pub proof fn years_follow_one_another(year: int)
    requires
        year >= 1,
    ensures
        days_before_year(year + 1) == days_before_year(year) + if is_leap(year) {
            366int
        } else {
            365int
        },
        days_before_year(1970) == 0,
{
}

/// How many days there are from the first of 1970 to a date.
pub open spec fn day_number(year: int, month: int, day: int) -> int {
    days_before_year(year) + days_before_month(year, month) + day - 1
}

/// Whether there is such a day.
pub open spec fn is_date(year: int, month: int, day: int) -> bool {
    1 <= month <= 12 && 1 <= day <= days_in_month(year, month)
}

/// How many days of a year that starts in March are before its month, from 0 on.
spec fn from_march(mp: int) -> int {
    (153 * mp + 2) / 5
}

proof fn months_from_march(year: int, month: int)
    requires
        1 <= month <= 12,
    ensures
        month >= 3 ==> days_before_month(year, month) == from_march(month - 3) + 59 + if is_leap(
            year,
        ) {
            1int
        } else {
            0int
        },
        month < 3 ==> days_before_month(year, month) == from_march(month + 9) - 306,
{
    reveal_with_fuel(days_before_month, 13);
}

proof fn year_of_era(doe: int, yoe: int)
    requires
        0 <= doe < 146097,
        yoe == (doe - doe / 1460 + doe / 36524 - doe / 146096) / 365,
    ensures
        0 <= yoe < 400,
        365 * yoe + yoe / 4 - yoe / 100 <= doe,
        doe - (365 * yoe + yoe / 4 - yoe / 100) <= 365,
        doe - (365 * yoe + yoe / 4 - yoe / 100) == 365 ==> is_leap(yoe + 1),
{
    let century = doe / 36524;
    let doy = doe - (365 * yoe + yoe / 4 - yoe / 100);
    if century >= 4 {
        assert(doe == 146096);
        assert(yoe == 399);
    } else if century == 0 {
        assert(yoe / 100 == 0);
    } else if century == 1 {
        assert(yoe / 100 == 1);
    } else if century == 2 {
        assert(yoe / 100 == 2);
    } else {
        assert(yoe / 100 == 3);
    }
}

/// The parts of a day in a calendar that starts in March are its date.
proof fn date_of_day(
    z: int,
    era: int,
    yoe: int,
    doy: int,
    mp: int,
    day: int,
    month: int,
    year: int,
)
    requires
        z >= 719_468,
        era >= 0,
        0 <= yoe < 400,
        z == 146_097 * era + 365 * yoe + yoe / 4 - yoe / 100 + doy,
        0 <= doy <= 365,
        doy == 365 ==> is_leap(yoe + 1),
        mp == (5 * doy + 2) / 153,
        day == doy - from_march(mp) + 1,
        month == if mp < 10 {
            mp + 3
        } else {
            mp - 9
        },
        year == yoe + era * 400 + if month <= 2 {
            1int
        } else {
            0int
        },
    ensures
        is_date(year, month, day),
        day_number(year, month, day) == z - 719_468,
        1970 <= year,
{
    let m = yoe + era * 400;
    same_in_every_era(era, yoe);
    months_from_march(year, month);
    years_follow_one_another_from(m);
    days_of_march_months(doy, mp, day);
    if year < 1970 {
        dates_before_the_first(year, month, day);
    }
}

proof fn same_in_every_era(era: int, yoe: int)
    requires
        era >= 0,
        0 <= yoe < 400,
    ensures
        ({
            let m = yoe + era * 400;
            &&& 365 * m + leap_days(m) == 146_097 * era + 365 * yoe + yoe / 4 - yoe / 100
            &&& is_leap(m + 1) == is_leap(yoe + 1)
        }),
{
    let m = yoe + era * 400;
    assert(m / 4 == era * 100 + yoe / 4);
    assert(m / 100 == era * 4 + yoe / 100);
    assert(m / 400 == era);
    assert((m + 1) % 4 == (yoe + 1) % 4);
    assert((m + 1) % 100 == (yoe + 1) % 100);
    assert((m + 1) % 400 == (yoe + 1) % 400);
}

proof fn years_follow_one_another_from(m: int)
    requires
        m >= 0,
    ensures
        days_before_year(m + 1) == 365 * m + leap_days(m) - 719_162,
        days_before_year(m + 1) == days_before_year(m) + if is_leap(m) {
            366int
        } else {
            365int
        },
{
    if m >= 1 {
        years_follow_one_another(m);
    } else {
        assert(days_before_year(1) == days_before_year(0) + 366);
    }
}

proof fn days_of_march_months(doy: int, mp: int, day: int)
    requires
        0 <= doy <= 365,
        mp == (5 * doy + 2) / 153,
        day == doy - from_march(mp) + 1,
    ensures
        0 <= mp <= 11,
        1 <= day <= 31,
        mp == 1 || mp == 3 || mp == 6 || mp == 8 ==> day <= 30,
        mp == 11 ==> day <= 29,
        mp == 11 && doy < 365 ==> day <= 28,
{
}

/// The date that many days after the first of 1970.
fn civil(days: u64) -> (date: (u64, u64, u64))
    requires
        days <= 300_000_000_000_000,
    ensures
        is_date(date.0 as int, date.1 as int, date.2 as int),
        day_number(date.0 as int, date.1 as int, date.2 as int) == days,
        1970 <= date.0,
{
    let z: u64 = days + 719_468;
    let era: u64 = z / 146_097;
    let doe: u64 = z % 146_097;
    let yoe: u64 = (doe - doe / 1460 + doe / 36_524 - doe / 146_096) / 365;
    proof {
        year_of_era(doe as int, yoe as int);
    }
    let doy: u64 = doe - (365 * yoe + yoe / 4 - yoe / 100);
    let mp: u64 = (5 * doy + 2) / 153;
    let day: u64 = doy - (153 * mp + 2) / 5 + 1;
    let month: u64 = if mp < 10 {
        mp + 3
    } else {
        mp - 9
    };
    let march: u64 = yoe + era * 400;
    let year: u64 = if month <= 2 {
        march + 1
    } else {
        march
    };
    proof {
        date_of_day(
            z as int,
            era as int,
            yoe as int,
            doy as int,
            mp as int,
            day as int,
            month as int,
            year as int,
        );
    }
    (year, month, day)
}

/// A date in a year before 1970 is before its first day.
proof fn dates_before_the_first(year: int, month: int, day: int)
    requires
        0 <= year < 1970,
        is_date(year, month, day),
    ensures
        day_number(year, month, day) < 0,
{
    days_of_a_year(year, month, day);
    assert(days_before_year(year) + if is_leap(year) {
        366int
    } else {
        365int
    } <= 0);
}

/// A moment as it is written: `YYYY-MM-DDThh:mm:ss`.
pub open spec fn moment_text(year: int, month: int, day: int, rest: int) -> Seq<char> {
    ((((((((((decimal(year as nat) + "-"@) + padded(month as nat, 2)) + "-"@) + padded(
        day as nat,
        2,
    )) + "T"@) + padded((rest / 3600) as nat, 2)) + ":"@) + padded(
        (rest % 3600 / 60) as nat,
        2,
    )) + ":"@) + padded((rest % 60) as nat, 2))
}

/// Whether a text is how a moment, in seconds from the first of 1970, is written.
pub open spec fn is_moment(seconds: int, text: Seq<char>) -> bool {
    exists|year: int, month: int, day: int| #[trigger]
        is_date(year, month, day) && 1970 <= year && day_number(year, month, day) == seconds
            / 86_400 && text == moment_text(year, month, day, seconds % 86_400)
}

/// A moment, in seconds from the first of 1970, as `YYYY-MM-DDThh:mm:ss` in UTC.
pub fn iso8601(seconds: u64) -> (text: String)
    ensures
        is_moment(seconds as int, text@),
{
    let (year, month, day): (u64, u64, u64) = civil(seconds / 86_400);
    let rest: u64 = seconds % 86_400;
    let mut text = String::new();
    append_decimal(&mut text, year);
    assert(text@ =~= decimal(year as nat));
    append(&mut text, "-");
    append_padded(&mut text, month, 2);
    append(&mut text, "-");
    append_padded(&mut text, day, 2);
    append(&mut text, "T");
    append_padded(&mut text, rest / 3600, 2);
    append(&mut text, ":");
    append_padded(&mut text, rest % 3600 / 60, 2);
    append(&mut text, ":");
    append_padded(&mut text, rest % 60, 2);
    assert(is_date(year as int, month as int, day as int));
    text
}

/// No two dates are the same day.
pub proof fn a_day_has_one_date(a: (int, int, int), b: (int, int, int))
    requires
        is_date(a.0, a.1, a.2),
        is_date(b.0, b.1, b.2),
        1 <= a.0,
        1 <= b.0,
        day_number(a.0, a.1, a.2) == day_number(b.0, b.1, b.2),
    ensures
        a == b,
{
    days_of_a_year(a.0, a.1, a.2);
    days_of_a_year(b.0, b.1, b.2);
    if a.0 < b.0 {
        years_apart(a.0, b.0);
    } else if b.0 < a.0 {
        years_apart(b.0, a.0);
    } else if a.1 < b.1 {
        months_apart(a.0, a.1, b.1);
    } else if b.1 < a.1 {
        months_apart(a.0, b.1, a.1);
    }
}

proof fn months_apart(year: int, early: int, late: int)
    requires
        1 <= early < late,
    ensures
        days_before_month(year, early) + days_in_month(year, early) <= days_before_month(
            year,
            late,
        ),
    decreases late - early,
{
    if early + 1 < late {
        months_apart(year, early, late - 1);
    }
}

proof fn days_of_a_year(year: int, month: int, day: int)
    requires
        is_date(year, month, day),
    ensures
        1 <= days_before_month(year, month) + day <= if is_leap(year) {
            366int
        } else {
            365int
        },
{
    months_from_march(year, month);
}

proof fn years_apart(early: int, late: int)
    requires
        1 <= early < late,
    ensures
        days_before_year(early) + if is_leap(early) {
            366int
        } else {
            365int
        } <= days_before_year(late),
    decreases late - early,
{
    years_follow_one_another(early);
    if early + 1 < late {
        years_apart(early + 1, late);
    }
}

/// The first second of the year 10000.
pub const YEAR_10000: u64 = 253_402_300_800;

/// Whether a text comes before another in the order of their characters.
pub open spec fn sorts_before(a: Seq<char>, b: Seq<char>) -> bool
    decreases a.len(),
{
    if b.len() == 0 {
        false
    } else if a.len() == 0 {
        true
    } else {
        a[0] < b[0] || (a[0] == b[0] && sorts_before(a.skip(1), b.skip(1)))
    }
}

/// Whether a text has the shape `YYYY-MM-DDThh:mm:ss`.
pub open spec fn has_moment_shape(text: Seq<char>) -> bool {
    &&& text.len() == 19
    &&& text[4] == '-' && text[7] == '-' && text[10] == 'T' && text[13] == ':' && text[16] == ':'
    &&& forall|i: int|
        0 <= i < 19 && i != 4 && i != 7 && i != 10 && i != 13 && i != 16 ==> '0' <= #[trigger] text[i]
            <= '9'
}

/// The date of a moment.
spec fn date_text(year: int, month: int, day: int) -> Seq<char> {
    padded(year as nat, 4) + "-"@ + padded(month as nat, 2) + "-"@ + padded(day as nat, 2)
}

/// The time of a moment.
spec fn time_text(rest: int) -> Seq<char> {
    padded((rest / 3600) as nat, 2) + ":"@ + padded((rest % 3600 / 60) as nat, 2) + ":"@ + padded(
        (rest % 60) as nat,
        2,
    )
}

/// A number without its last digits, so many of them.
spec fn without_digits(n: nat, count: nat) -> nat
    decreases count,
{
    if count == 0 {
        n
    } else {
        without_digits(n / 10, (count - 1) as nat)
    }
}

proof fn digits_fill_their_width(n: nat, width: nat)
    ensures
        padded(n, width).len() == width,
        forall|i: int| 0 <= i < width ==> '0' <= #[trigger] padded(n, width)[i] <= '9',
    decreases width,
{
    if width > 0 {
        digits_fill_their_width(n / 10, (width - 1) as nat);
        let front = padded(n / 10, (width - 1) as nat);
        assert forall|i: int| 0 <= i < width implies '0' <= #[trigger] padded(n, width)[i]
            <= '9' by {
            if i < width - 1 {
                assert(padded(n, width)[i] == front[i]);
            }
        }
    }
}

proof fn an_end_changes_nothing(a: Seq<char>, b: Seq<char>, x: Seq<char>, y: Seq<char>)
    requires
        a.len() == b.len(),
        sorts_before(a, b),
    ensures
        sorts_before(a + x, b + y),
    decreases a.len(),
{
    assert((a + x)[0] == a[0] && (b + y)[0] == b[0]);
    if a[0] == b[0] {
        an_end_changes_nothing(a.skip(1), b.skip(1), x, y);
        assert((a + x).skip(1) =~= a.skip(1) + x);
        assert((b + y).skip(1) =~= b.skip(1) + y);
    }
}

proof fn a_start_changes_nothing(start: Seq<char>, a: Seq<char>, b: Seq<char>)
    requires
        sorts_before(a, b),
    ensures
        sorts_before(start + a, start + b),
    decreases start.len(),
{
    if start.len() == 0 {
        assert(start + a =~= a && start + b =~= b);
    } else {
        a_start_changes_nothing(start.skip(1), a, b);
        assert((start + a).skip(1) =~= start.skip(1) + a);
        assert((start + b).skip(1) =~= start.skip(1) + b);
    }
}

proof fn nothing_sorts_before_itself(a: Seq<char>)
    ensures
        !sorts_before(a, a),
    decreases a.len(),
{
    if a.len() > 0 {
        nothing_sorts_before_itself(a.skip(1));
    }
}

proof fn numbers_sort_by_their_digits(n: nat, m: nat, width: nat)
    requires
        n < m,
        without_digits(n, width) == without_digits(m, width),
    ensures
        sorts_before(padded(n, width), padded(m, width)),
    decreases width,
{
    if width > 0 {
        let shorter = (width - 1) as nat;
        let (a, b) = (padded(n / 10, shorter), padded(m / 10, shorter));
        let (x, y) = (seq![digit((n % 10) as int)], seq![digit((m % 10) as int)]);
        digits_fill_their_width(n / 10, shorter);
        digits_fill_their_width(m / 10, shorter);
        assert(padded(n, width) =~= a + x && padded(m, width) =~= b + y);
        if n / 10 < m / 10 {
            numbers_sort_by_their_digits(n / 10, m / 10, shorter);
            an_end_changes_nothing(a, b, x, y);
        } else {
            assert(n / 10 == m / 10);
            assert(x[0] < y[0]);
            assert(sorts_before(x, y));
            a_start_changes_nothing(a, x, y);
        }
    }
}

proof fn two_digits_sort(n: int, m: int)
    requires
        0 <= n < m < 100,
    ensures
        sorts_before(padded(n as nat, 2), padded(m as nat, 2)),
{
    reveal_with_fuel(without_digits, 3);
    numbers_sort_by_their_digits(n as nat, m as nat, 2);
}

/// Three parts of a text sort by the first in which two of them differ.
proof fn parts_sort(
    a: (Seq<char>, Seq<char>, Seq<char>),
    b: (Seq<char>, Seq<char>, Seq<char>),
    mark: Seq<char>,
)
    requires
        a.0.len() == b.0.len(),
        a.1.len() == b.1.len(),
        a.2.len() == b.2.len(),
        sorts_before(a.0, b.0) || (a.0 == b.0 && (sorts_before(a.1, b.1) || (a.1 == b.1
            && sorts_before(a.2, b.2)))),
    ensures
        sorts_before(a.0 + mark + a.1 + mark + a.2, b.0 + mark + b.1 + mark + b.2),
{
    let whole_a = a.0 + mark + a.1 + mark + a.2;
    let whole_b = b.0 + mark + b.1 + mark + b.2;
    if sorts_before(a.0, b.0) {
        let (x, y) = (mark + a.1 + mark + a.2, mark + b.1 + mark + b.2);
        an_end_changes_nothing(a.0, b.0, x, y);
        assert(whole_a =~= a.0 + x && whole_b =~= b.0 + y);
    } else if sorts_before(a.1, b.1) {
        let (x, y) = (mark + a.2, mark + b.2);
        an_end_changes_nothing(a.1, b.1, x, y);
        a_start_changes_nothing(a.0 + mark, a.1 + x, b.1 + y);
        assert(whole_a =~= a.0 + mark + (a.1 + x) && whole_b =~= b.0 + mark + (b.1 + y));
    } else {
        a_start_changes_nothing(a.0 + mark + a.1 + mark, a.2, b.2);
    }
}

proof fn moment_is_date_and_time(year: int, month: int, day: int, rest: int)
    requires
        1970 <= year < 10000,
    ensures
        moment_text(year, month, day, rest) == date_text(year, month, day) + "T"@ + time_text(rest),
        date_text(year, month, day).len() == 10,
        time_text(rest).len() == 8,
{
    reveal_with_fuel(decimal, 5);
    reveal_with_fuel(padded, 5);
    reveal_strlit("-");
    reveal_strlit("T");
    reveal_strlit(":");
    assert(decimal(year as nat) =~= padded(year as nat, 4));
    assert(moment_text(year, month, day, rest) =~= date_text(year, month, day) + "T"@ + time_text(
        rest,
    ));
}

/// A later day has a later date.
proof fn dates_follow_days(a: (int, int, int), b: (int, int, int))
    requires
        is_date(a.0, a.1, a.2),
        is_date(b.0, b.1, b.2),
        1 <= a.0,
        1 <= b.0,
        day_number(a.0, a.1, a.2) < day_number(b.0, b.1, b.2),
    ensures
        a.0 < b.0 || (a.0 == b.0 && (a.1 < b.1 || (a.1 == b.1 && a.2 < b.2))),
{
    days_of_a_year(a.0, a.1, a.2);
    days_of_a_year(b.0, b.1, b.2);
    if b.0 < a.0 {
        years_apart(b.0, a.0);
    } else if a.0 == b.0 && b.1 < a.1 {
        months_apart(a.0, b.1, a.1);
    }
}

proof fn before_the_year_10000(year: int, month: int, day: int, seconds: int)
    requires
        0 <= seconds < YEAR_10000,
        is_date(year, month, day),
        1970 <= year,
        day_number(year, month, day) == seconds / 86_400,
    ensures
        year < 10000,
{
    days_of_a_year(year, month, day);
    assert(days_before_year(10000) == 2_932_897);
    if year >= 10000 {
        if year > 10000 {
            years_apart(10000, year);
        }
    }
}

/// Up to the year 10000 a moment is written in 19 characters, `YYYY-MM-DDThh:mm:ss`.
pub proof fn moments_have_one_shape(seconds: int, text: Seq<char>)
    requires
        0 <= seconds < YEAR_10000,
        is_moment(seconds, text),
    ensures
        has_moment_shape(text),
{
    let (year, month, day) = choose|year: int, month: int, day: int| #[trigger]
        is_date(year, month, day) && 1970 <= year && day_number(year, month, day) == seconds
            / 86_400 && text == moment_text(year, month, day, seconds % 86_400);
    let rest = seconds % 86_400;
    before_the_year_10000(year, month, day, seconds);
    moment_is_date_and_time(year, month, day, rest);
    digits_fill_their_width(year as nat, 4);
    digits_fill_their_width(month as nat, 2);
    digits_fill_their_width(day as nat, 2);
    digits_fill_their_width((rest / 3600) as nat, 2);
    digits_fill_their_width((rest % 3600 / 60) as nat, 2);
    digits_fill_their_width((rest % 60) as nat, 2);
    reveal_strlit("-");
    reveal_strlit("T");
    reveal_strlit(":");
    let (date, time) = (date_text(year, month, day), time_text(rest));
    assert forall|i: int| 0 <= i < 4 implies '0' <= #[trigger] text[i] <= '9' by {
        assert(text[i] == padded(year as nat, 4)[i]);
    }
    assert(text[5] == padded(month as nat, 2)[0] && text[6] == padded(month as nat, 2)[1]);
    assert(text[8] == padded(day as nat, 2)[0] && text[9] == padded(day as nat, 2)[1]);
    assert(text[11] == time[0] && text[12] == time[1]);
    assert(time[0] == padded((rest / 3600) as nat, 2)[0]);
    assert(time[1] == padded((rest / 3600) as nat, 2)[1]);
    assert(text[14] == padded((rest % 3600 / 60) as nat, 2)[0]);
    assert(text[15] == padded((rest % 3600 / 60) as nat, 2)[1]);
    assert(text[17] == padded((rest % 60) as nat, 2)[0]);
    assert(text[18] == padded((rest % 60) as nat, 2)[1]);
    assert(text[4] == date[4] && text[7] == date[7] && text[10] == 'T');
    assert(text[13] == time[2] && text[16] == time[5]);
}

/// Up to the year 10000 moments sort, as they are written, in the order in which they come, and
/// no two are written alike.
pub proof fn moments_sort_as_they_come(a: int, early: Seq<char>, b: int, late: Seq<char>)
    requires
        0 <= a <= b < YEAR_10000,
        is_moment(a, early),
        is_moment(b, late),
    ensures
        a < b ==> sorts_before(early, late),
        early == late <==> a == b,
{
    let (y1, m1, d1) = choose|year: int, month: int, day: int| #[trigger]
        is_date(year, month, day) && 1970 <= year && day_number(year, month, day) == a / 86_400
            && early == moment_text(year, month, day, a % 86_400);
    let (y2, m2, d2) = choose|year: int, month: int, day: int| #[trigger]
        is_date(year, month, day) && 1970 <= year && day_number(year, month, day) == b / 86_400
            && late == moment_text(year, month, day, b % 86_400);
    let (r1, r2) = (a % 86_400, b % 86_400);
    before_the_year_10000(y1, m1, d1, a);
    before_the_year_10000(y2, m2, d2, b);
    moment_is_date_and_time(y1, m1, d1, r1);
    moment_is_date_and_time(y2, m2, d2, r2);
    nothing_sorts_before_itself(early);
    if a / 86_400 < b / 86_400 {
        dates_follow_days((y1, m1, d1), (y2, m2, d2));
        dates_sort((y1, m1, d1), (y2, m2, d2));
        let (x, y) = ("T"@ + time_text(r1), "T"@ + time_text(r2));
        an_end_changes_nothing(date_text(y1, m1, d1), date_text(y2, m2, d2), x, y);
        assert(early =~= date_text(y1, m1, d1) + x && late =~= date_text(y2, m2, d2) + y);
    } else {
        assert(a / 86_400 == b / 86_400);
        a_day_has_one_date((y1, m1, d1), (y2, m2, d2));
        if a < b {
            assert(r1 < r2);
            times_sort(r1, r2);
            a_start_changes_nothing(
                date_text(y1, m1, d1) + "T"@,
                time_text(r1),
                time_text(r2),
            );
        }
    }
}

proof fn dates_sort(a: (int, int, int), b: (int, int, int))
    requires
        is_date(a.0, a.1, a.2),
        is_date(b.0, b.1, b.2),
        1970 <= a.0 < 10000,
        1970 <= b.0 < 10000,
        a.0 < b.0 || (a.0 == b.0 && (a.1 < b.1 || (a.1 == b.1 && a.2 < b.2))),
    ensures
        sorts_before(date_text(a.0, a.1, a.2), date_text(b.0, b.1, b.2)),
{
    digits_fill_their_width(a.0 as nat, 4);
    digits_fill_their_width(b.0 as nat, 4);
    digits_fill_their_width(a.1 as nat, 2);
    digits_fill_their_width(b.1 as nat, 2);
    digits_fill_their_width(a.2 as nat, 2);
    digits_fill_their_width(b.2 as nat, 2);
    if a.0 < b.0 {
        reveal_with_fuel(without_digits, 5);
        numbers_sort_by_their_digits(a.0 as nat, b.0 as nat, 4);
    } else if a.1 < b.1 {
        two_digits_sort(a.1, b.1);
    } else {
        two_digits_sort(a.2, b.2);
    }
    parts_sort(
        (padded(a.0 as nat, 4), padded(a.1 as nat, 2), padded(a.2 as nat, 2)),
        (padded(b.0 as nat, 4), padded(b.1 as nat, 2), padded(b.2 as nat, 2)),
        "-"@,
    );
}

proof fn times_sort(a: int, b: int)
    requires
        0 <= a < b < 86_400,
    ensures
        sorts_before(time_text(a), time_text(b)),
{
    let (x, y) = (
        (a / 3600, a % 3600 / 60, a % 60),
        (b / 3600, b % 3600 / 60, b % 60),
    );
    digits_fill_their_width(x.0 as nat, 2);
    digits_fill_their_width(y.0 as nat, 2);
    digits_fill_their_width(x.1 as nat, 2);
    digits_fill_their_width(y.1 as nat, 2);
    digits_fill_their_width(x.2 as nat, 2);
    digits_fill_their_width(y.2 as nat, 2);
    if x.0 < y.0 {
        two_digits_sort(x.0, y.0);
    } else if x.1 < y.1 {
        two_digits_sort(x.1, y.1);
    } else {
        two_digits_sort(x.2, y.2);
    }
    parts_sort(
        (padded(x.0 as nat, 2), padded(x.1 as nat, 2), padded(x.2 as nat, 2)),
        (padded(y.0 as nat, 2), padded(y.1 as nat, 2), padded(y.2 as nat, 2)),
        ":"@,
    );
}

/// The note beside a file in the Trash: where it came from, and when.
pub fn trash_info(path: &[u8], seconds: u64) -> (note: String)
    ensures
        exists|date: Seq<char>| #[trigger]
            is_moment(seconds as int, date) && note@ == (((("[Trash Info]\nPath="@
                + percent_encoded(path@)) + "\nDeletionDate="@) + date) + "\n"@),
{
    let mut note = literal("[Trash Info]\nPath=");
    let encoded = percent_encode(path);
    append(&mut note, encoded.as_str());
    append(&mut note, "\nDeletionDate=");
    let date = iso8601(seconds);
    append(&mut note, date.as_str());
    append(&mut note, "\n");
    note
}

/// A file's name in the Trash at an attempt: its own, and from the second on with a number.
pub open spec fn attempt_name(name: Seq<u8>, attempt: int) -> Seq<u8> {
    if attempt == 0 {
        name
    } else {
        name.push(46) + crate::bytes::decimal_bytes(attempt as nat)
    }
}

/// A file's name in the Trash at an attempt, and its note's name. `None` once too many are
/// taken.
pub fn candidate(name: &Name, attempt: u32) -> (names: Option<(Name, Name)>)
    ensures
        names is Some == (attempt < MOST_NAMES),
        names is Some ==> {
            &&& (names->0).0@ == attempt_name(name@, attempt as int)
            &&& (names->0).1@ == attempt_name(name@, attempt as int) + crate::bytes::ascii(
                ".trashinfo"@,
            )
        },
{
    if attempt >= MOST_NAMES {
        return None;
    }
    let mut file = copy_name(name);
    if attempt > 0 {
        file.push(46);
        crate::bytes::append_number(&mut file, attempt as u64);
    }
    let mut info = copy_name(&file);
    crate::bytes::append_ascii(&mut info, ".trashinfo");
    Some((file, info))
}

/// What is said when no name is free.
pub fn no_name_free() -> (why: String)
    ensures
        why@ == "the Trash already holds too many files of that name"@,
{
    literal("the Trash already holds too many files of that name")
}

/// Two attempts never try the same name.
pub proof fn attempts_try_different_names(name: Seq<u8>, a: int, b: int)
    requires
        0 <= a,
        0 <= b,
        attempt_name(name, a) == attempt_name(name, b),
    ensures
        a == b,
{
    let (first, second) = (attempt_name(name, a), attempt_name(name, b));
    crate::bytes::decimal_spells_the_number(a as nat);
    crate::bytes::decimal_spells_the_number(b as nat);
    if a > 0 && b > 0 {
        assert(first.skip(name.len() as int + 1) =~= crate::bytes::decimal_bytes(a as nat));
        assert(second.skip(name.len() as int + 1) =~= crate::bytes::decimal_bytes(b as nat));
    } else if a > 0 {
        assert(first.len() > second.len());
    } else if b > 0 {
        assert(second.len() > first.len());
    }
}

/// The trash of the home folder: below the folder for data where the environment names one, and
/// else below the home folder.
pub open spec fn home_trash_path(data: Option<Seq<u8>>, home: Option<Seq<u8>>) -> Option<Seq<u8>> {
    if data is Some && data->0.len() > 0 {
        Some(joined_path(data->0, crate::bytes::ascii("Trash"@)))
    } else {
        match home {
            Some(home) => Some(joined_path(home, crate::bytes::ascii(".local/share/Trash"@))),
            None => None,
        }
    }
}

/// The trash of the home folder. `data` and `home` are what `XDG_DATA_HOME` and `HOME` hold.
pub fn home_trash(data: &Option<Name>, home: &Option<Name>) -> (path: Result<Name, String>)
    ensures
        match path {
            Ok(path) => home_trash_path(name_view(*data), name_view(*home)) == Some(path@),
            Err(why) => home_trash_path(name_view(*data), name_view(*home)) is None && why@
                == "HOME is not set"@,
        },
{
    let mut below: Name = Vec::new();
    if let Some(data) = data {
        if data.len() > 0 {
            crate::bytes::append_ascii(&mut below, "Trash");
            assert(below@ =~= crate::bytes::ascii("Trash"@));
            return Ok(join(data, &below));
        }
    }
    match home {
        Some(home) => {
            crate::bytes::append_ascii(&mut below, ".local/share/Trash");
            assert(below@ =~= crate::bytes::ascii(".local/share/Trash"@));
            Ok(join(home, &below))
        },
        None => Err(literal("HOME is not set")),
    }
}

/// Which trash a file goes to.
#[derive(Clone, Copy, Debug, PartialEq, Eq, Structural)]
pub enum WhichTrash {
    Home,
    /// That of its own filesystem, whose top directory is so many folders above the one the file
    /// is in.
    Top { above: usize },
}

/// The first device there is, of a path's ancestors, nearest first.
pub open spec fn nearest_device(devices: Seq<Option<u64>>) -> Option<u64>
    decreases devices.len(),
{
    if devices.len() == 0 {
        None
    } else if devices[0] is Some {
        devices[0]
    } else {
        nearest_device(devices.drop_first())
    }
}

/// How many folders, one above the other, are on a device.
pub open spec fn on_device(parents: Seq<Option<u64>>, device: u64) -> nat
    decreases parents.len(),
{
    if parents.len() == 0 || parents[0] != Some(device) {
        0
    } else {
        1 + on_device(parents.drop_first(), device)
    }
}

/// Which trash a file on `device` goes to: the home trash where that is on the same device, and
/// else one in the top directory of the file's own filesystem. `home` holds the devices of the
/// home trash's ancestors, nearest first, and `parents` those of the folders above the one the
/// file is in; `None` where there is no such folder.
pub fn which_trash(device: u64, home: &Vec<Option<u64>>, parents: &Vec<Option<u64>>) -> (which:
    WhichTrash)
    ensures
        which == if nearest_device(home@) == Some(device) {
            WhichTrash::Home
        } else {
            WhichTrash::Top { above: on_device(parents@, device) as usize }
        },
        on_device(parents@, device) <= parents.len(),
{
    let mut i: usize = 0;
    assert(home@.skip(0) =~= home@);
    while i < home.len() && home[i].is_none()
        invariant
            i <= home.len(),
            nearest_device(home@) == nearest_device(home@.skip(i as int)),
        decreases home.len() - i,
    {
        assert(home@.skip(i as int).drop_first() =~= home@.skip(i + 1));
        assert(home@.skip(i as int)[0] == home@[i as int]);
        i += 1;
    }
    let mut above: usize = 0;
    assert(parents@.skip(0) =~= parents@);
    let mut same = true;
    while same && above < parents.len()
        invariant
            above <= parents.len(),
            on_device(parents@, device) == above + if same {
                on_device(parents@.skip(above as int), device)
            } else {
                0
            },
        decreases
                parents.len() - above,
                if same {
                    1int
                } else {
                    0int
                },
    {
        assert(parents@.skip(above as int).drop_first() =~= parents@.skip(above + 1));
        assert(parents@.skip(above as int)[0] == parents@[above as int]);
        same =
        match parents[above] {
            Some(other) => other == device,
            None => false,
        };
        if same {
            above += 1;
        }
    }
    if i < home.len() {
        assert(home@.skip(i as int)[0] == home@[i as int]);
        if let Some(nearest) = home[i] {
            if nearest == device {
                return WhichTrash::Home;
            }
        }
    }
    WhichTrash::Top { above }
}

/// The name of a user's trash in the top directory of a filesystem.
pub fn own_trash(user: u32) -> (name: Name)
    ensures
        name@ == crate::bytes::ascii(".Trash-"@) + crate::bytes::decimal_bytes(user as nat),
{
    let mut name: Name = Vec::new();
    crate::bytes::append_ascii(&mut name, ".Trash-");
    assert(name@ =~= crate::bytes::ascii(".Trash-"@));
    crate::bytes::append_number(&mut name, user as u64);
    name
}

/// A byte that is no letter, digit, slash or one of four marks is written as a per cent sign and its
/// two digits in base sixteen, in capitals; any other is written as it is.
pub proof fn other_bytes_are_written_in_sixteens(byte: u8)
    ensures
        ({
            let plain = 'a' as int <= byte <= 'z' as int || 'A' as int <= byte <= 'Z' as int
                || '0' as int <= byte <= '9' as int || byte == '/' as int || byte == '-' as int
                || byte == '_' as int || byte == '.' as int || byte == '~' as int;
            &&& plain ==> byte_code(byte) == seq![byte as char]
            &&& !plain ==> {
                let code = byte_code(byte);
                &&& code.len() == 3
                &&& code[0] == '%'
                &&& forall|i: int|
                    1 <= i < 3 ==> '0' <= #[trigger] code[i] <= '9' || 'A' <= code[i] <= 'F'
                &&& 16 * hex_value(code[1]) + hex_value(code[2]) == byte
            }
        }),
{
}

/// The calendar comes round every four hundred years, and a year is a leap year as its number says.
pub proof fn the_calendar_comes_round(year: int)
    requires
        year >= 1,
    ensures
        days_before_year(year + 400) == days_before_year(year) + 146_097,
        year % 400 == 0 ==> is_leap(year),
        year % 400 != 0 && year % 100 == 0 ==> !is_leap(year),
        year % 100 != 0 && year % 4 == 0 ==> is_leap(year),
        year % 4 != 0 ==> !is_leap(year),
        days_before_month(year, 13) == if is_leap(year) {
            366int
        } else {
            365int
        },
        days_in_month(year, 1) == 31,
        days_in_month(year, 2) == if is_leap(year) {
            29int
        } else {
            28int
        },
        days_in_month(year, 12) == 31,
{
    reveal_with_fuel(days_before_month, 13);
    let y = year - 1;
    assert((y + 400) / 4 == y / 4 + 100);
    assert((y + 400) / 100 == y / 100 + 4);
    assert((y + 400) / 400 == y / 400 + 1);
}

/// The nearest folder of the Trash's path that there is says which filesystem it is on.
pub proof fn the_nearest_there_is_says_the_device(devices: Seq<Option<u64>>, at: int)
    requires
        0 <= at < devices.len(),
        devices[at] is Some,
        forall|i: int| 0 <= i < at ==> (#[trigger] devices[i]) is None,
    ensures
        nearest_device(devices) == devices[at],
    decreases at,
{
    if at > 0 {
        assert(devices[0] is None);
        let rest = devices.drop_first();
        assert forall|i: int| 0 <= i < at - 1 implies (#[trigger] rest[i]) is None by {
            assert(rest[i] == devices[i + 1]);
        }
        the_nearest_there_is_says_the_device(rest, at - 1);
    }
}

/// The top of a filesystem is as many folders up as are on it, one above the other: all of those
/// are, and the next is not.
pub proof fn the_top_is_the_last_on_the_device(parents: Seq<Option<u64>>, device: u64)
    ensures
        on_device(parents, device) <= parents.len(),
        forall|i: int|
            0 <= i < on_device(parents, device) ==> #[trigger] parents[i] == Some(device),
        on_device(parents, device) < parents.len() ==> parents[on_device(parents, device) as int]
            != Some(device),
    decreases parents.len(),
{
    if parents.len() > 0 && parents[0] == Some(device) {
        let rest = parents.drop_first();
        the_top_is_the_last_on_the_device(rest, device);
        assert forall|i: int| 0 <= i < on_device(parents, device) implies #[trigger] parents[i]
            == Some(device) by {
            if i > 0 {
                assert(rest[i - 1] == parents[i]);
            }
        }
        let count = on_device(rest, device) as int;
        if count < rest.len() {
            assert(rest[count] == parents[count + 1]);
        }
    }
}

/// The Trash is where the data folder is said to be, or else in its usual place below the home
/// folder; an empty variable says nothing.
pub proof fn the_trash_is_in_the_data_folder(data: Seq<u8>, home: Seq<u8>)
    requires
        home.len() > 0,
    ensures
        data.len() > 0 ==> home_trash_path(Some(data), Some(home)) is Some && data.is_prefix_of(
            home_trash_path(Some(data), Some(home))->0,
        ),
        data.len() == 0 ==> home_trash_path(Some(data), Some(home)) == home_trash_path(
            None,
            Some(home),
        ),
        home_trash_path(None, Some(home)) is Some,
        home.is_prefix_of(home_trash_path(None, Some(home))->0),
        home_trash_path(None, None) is None,
{
}

/// The months but February have thirty days and thirty-one in turn, twice thirty-one in July and
/// August; and together with February they make a year.
pub proof fn months_make_a_year(year: int, month: int)
    requires
        1 <= month <= 12,
    ensures
        month != 2 ==> days_in_month(year, month) == 30 + (month + month / 8) % 2,
        days_in_month(year, 2) == days_before_year(year + 1) - days_before_year(year) - 337
            || year < 1,
        days_before_month(year, 13) == 337 + days_in_month(year, 2),
        days_before_month(year, 1) == 0,
        days_before_month(year, month + 1) == days_before_month(year, month) + days_in_month(
            year,
            month,
        ),
{
    reveal_with_fuel(days_before_month, 14);
    if year >= 1 {
        years_follow_one_another(year);
    }
}

} // verus!
